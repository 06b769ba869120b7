use vstd::prelude::*;

verus! {

/// Terms of the untyped language of booleans and natural numbers.
#[derive(Debug, PartialEq, Eq)]
pub enum Term {
    True,
    False,
    If(Box<Term>, Box<Term>, Box<Term>),
    Zero,
    Succ(Box<Term>),
    Pred(Box<Term>),
    IsZero(Box<Term>),
}

impl Clone for Term {
    fn clone(&self) -> (r: Self)
        ensures
            r == *self,
        decreases self,
    {
        match self {
            Term::True => Term::True,
            Term::False => Term::False,
            Term::If(t1, t2, t3) => Term::If(
                Box::new((**t1).clone()),
                Box::new((**t2).clone()),
                Box::new((**t3).clone()),
            ),
            Term::Zero => Term::Zero,
            Term::Succ(t1) => Term::Succ(Box::new((**t1).clone())),
            Term::Pred(t1) => Term::Pred(Box::new((**t1).clone())),
            Term::IsZero(t1) => Term::IsZero(Box::new((**t1).clone())),
        }
    }
}

/// Why evaluation stopped short of a value.
#[derive(Debug, PartialEq, Eq, Structural, Clone, Copy)]
pub enum EvalError {
    StuckTerm,
}

/// Numerals: `Zero` under any number of `Succ`.
pub open spec fn numeric(t: Term) -> bool
    decreases t,
{
    match t {
        Term::Zero => true,
        Term::Succ(t1) => numeric(*t1),
        _ => false,
    }
}

/// Values: booleans and numerals.
pub open spec fn value(t: Term) -> bool {
    t is True || t is False || numeric(t)
}

/// The number of constructors in `t`.
pub open spec fn size(t: Term) -> nat
    decreases t,
{
    match t {
        Term::If(t1, t2, t3) => 1 + size(*t1) + size(*t2) + size(*t3),
        Term::Succ(t1) => 1 + size(*t1),
        Term::Pred(t1) => 1 + size(*t1),
        Term::IsZero(t1) => 1 + size(*t1),
        _ => 1,
    }
}

/// One step of reduction; the first rule that matches applies.
pub open spec fn step(t: Term) -> Result<Term, EvalError>
    decreases t,
{
    match t {
        Term::If(t1, t2, t3) => match *t1 {
            Term::True => Ok(*t2),
            Term::False => Ok(*t3),
            _ => match step(*t1) {
                Ok(u1) => Ok(Term::If(Box::new(u1), t2, t3)),
                Err(e) => Err(e),
            },
        },
        Term::Succ(t1) => match step(*t1) {
            Ok(u1) => Ok(Term::Succ(Box::new(u1))),
            Err(e) => Err(e),
        },
        Term::Pred(t1) => if *t1 is Zero {
            Ok(Term::Zero)
        } else if *t1 is Succ && numeric(*(*t1)->Succ_0) {
            Ok(*(*t1)->Succ_0)
        } else {
            match step(*t1) {
                Ok(u1) => Ok(Term::Pred(Box::new(u1))),
                Err(e) => Err(e),
            }
        },
        Term::IsZero(t1) => if *t1 is Zero {
            Ok(Term::True)
        } else if *t1 is Succ && numeric(*(*t1)->Succ_0) {
            Ok(Term::False)
        } else {
            match step(*t1) {
                Ok(u1) => Ok(Term::IsZero(Box::new(u1))),
                Err(e) => Err(e),
            }
        },
        _ => Err(EvalError::StuckTerm),
    }
}

/// Every step makes the term smaller.
pub proof fn lemma_step_shrinks(t: Term)
    ensures
        step(t) is Ok ==> size(step(t)->Ok_0) < size(t),
    decreases t,
{
    match t {
        Term::If(t1, t2, t3) => {
            lemma_step_shrinks(*t1);
            if step(*t1) is Ok {
                let u = Term::If(Box::new(step(*t1)->Ok_0), t2, t3);
                assert(size(u) == 1 + size(step(*t1)->Ok_0) + size(*t2) + size(*t3));
            }
        },
        Term::Succ(t1) => lemma_step_shrinks(*t1),
        Term::Pred(t1) => {
            lemma_step_shrinks(*t1);
            if let Term::Succ(nv) = *t1 {
                assert(size(*t1) == 1 + size(*nv));
            }
        },
        Term::IsZero(t1) => {
            lemma_step_shrinks(*t1);
            if let Term::Succ(nv) = *t1 {
                assert(size(*t1) == 1 + size(*nv));
            }
        },
        _ => {},
    }
}

/// The value or stuck term that stepping from `t` ends in.
pub open spec fn normal_form(t: Term) -> Result<Term, EvalError>
    decreases size(t),
{
    if value(t) {
        Ok(t)
    } else {
        match step(t) {
            Ok(u) => {
                proof {
                    lemma_step_shrinks(t);
                }
                normal_form(u)
            },
            Err(e) => Err(e),
        }
    }
}

/// Big-step evaluation: subterms are evaluated to values first.
pub open spec fn big_step(t: Term) -> Result<Term, EvalError>
    decreases t,
{
    if value(t) {
        Ok(t)
    } else {
        match t {
            Term::If(t1, t2, t3) => match big_step(*t1) {
                Ok(Term::True) => big_step(*t2),
                Ok(Term::False) => big_step(*t3),
                _ => Err(EvalError::StuckTerm),
            },
            Term::Succ(t1) => match big_step(*t1) {
                Ok(v) => if numeric(v) {
                    Ok(Term::Succ(Box::new(v)))
                } else {
                    Err(EvalError::StuckTerm)
                },
                Err(e) => Err(e),
            },
            Term::Pred(t1) => match big_step(*t1) {
                Ok(Term::Zero) => Ok(Term::Zero),
                Ok(Term::Succ(v)) => Ok(*v),
                _ => Err(EvalError::StuckTerm),
            },
            Term::IsZero(t1) => match big_step(*t1) {
                Ok(Term::Zero) => Ok(Term::True),
                Ok(Term::Succ(_)) => Ok(Term::False),
                _ => Err(EvalError::StuckTerm),
            },
            _ => Err(EvalError::StuckTerm),
        }
    }
}

/// Whether `t` is a numeral.
pub fn is_numeric_val(t: &Term) -> (r: bool)
    ensures
        r == numeric(*t),
    decreases t,
{
    match t {
        Term::Zero => true,
        Term::Succ(t1) => is_numeric_val(t1),
        _ => false,
    }
}

/// Whether `t` is a value.
pub fn is_val(t: &Term) -> (r: bool)
    ensures
        r == value(*t),
{
    match t {
        Term::True | Term::False => true,
        _ => is_numeric_val(t),
    }
}

/// Performs one reduction step.
pub fn eval1(t: &Term) -> (r: Result<Term, EvalError>)
    ensures
        r == step(*t),
    decreases t,
{
    match t {
        Term::If(t1, t2, t3) => match &**t1 {
            Term::True => Ok((**t2).clone()),
            Term::False => Ok((**t3).clone()),
            _ => match eval1(t1) {
                Ok(u1) => Ok(
                    Term::If(Box::new(u1), Box::new((**t2).clone()), Box::new((**t3).clone())),
                ),
                Err(e) => Err(e),
            },
        },
        Term::Succ(t1) => match eval1(t1) {
            Ok(u1) => Ok(Term::Succ(Box::new(u1))),
            Err(e) => Err(e),
        },
        Term::Pred(t1) => {
            match &**t1 {
                Term::Zero => {
                    return Ok(Term::Zero);
                },
                Term::Succ(nv) => {
                    if is_numeric_val(nv) {
                        return Ok((**nv).clone());
                    }
                },
                _ => {},
            }
            match eval1(t1) {
                Ok(u1) => Ok(Term::Pred(Box::new(u1))),
                Err(e) => Err(e),
            }
        },
        Term::IsZero(t1) => {
            match &**t1 {
                Term::Zero => {
                    return Ok(Term::True);
                },
                Term::Succ(nv) => {
                    if is_numeric_val(nv) {
                        return Ok(Term::False);
                    }
                },
                _ => {},
            }
            match eval1(t1) {
                Ok(u1) => Ok(Term::IsZero(Box::new(u1))),
                Err(e) => Err(e),
            }
        },
        _ => Err(EvalError::StuckTerm),
    }
}

/// Steps `t` until it is a value, or fails with the stuck term's error.
pub fn eval(t: &Term) -> (r: Result<Term, EvalError>)
    ensures
        r == normal_form(*t),
{
    let mut u = t.clone();
    loop
        invariant
            normal_form(u) == normal_form(*t),
        decreases size(u),
    {
        if is_val(&u) {
            return Ok(u);
        }
        proof {
            lemma_step_shrinks(u);
        }
        match eval1(&u) {
            Ok(u2) => {
                u = u2;
            },
            Err(e) => {
                return Err(e);
            },
        }
    }
}

/// Evaluates `t` by the big-step rules.
pub fn big_step_eval(t: &Term) -> (r: Result<Term, EvalError>)
    ensures
        r == big_step(*t),
    decreases t,
{
    if is_val(t) {
        return Ok(t.clone());
    }
    match t {
        Term::If(t1, t2, t3) => match big_step_eval(t1) {
            Ok(Term::True) => big_step_eval(t2),
            Ok(Term::False) => big_step_eval(t3),
            _ => Err(EvalError::StuckTerm),
        },
        Term::Succ(t1) => match big_step_eval(t1) {
            Ok(v) => if is_numeric_val(&v) {
                Ok(Term::Succ(Box::new(v)))
            } else {
                Err(EvalError::StuckTerm)
            },
            Err(e) => Err(e),
        },
        Term::Pred(t1) => match big_step_eval(t1) {
            Ok(Term::Zero) => Ok(Term::Zero),
            Ok(Term::Succ(v)) => Ok(*v),
            _ => Err(EvalError::StuckTerm),
        },
        Term::IsZero(t1) => match big_step_eval(t1) {
            Ok(Term::Zero) => Ok(Term::True),
            Ok(Term::Succ(_)) => Ok(Term::False),
            _ => Err(EvalError::StuckTerm),
        },
        _ => Err(EvalError::StuckTerm),
    }
}

} // verus!

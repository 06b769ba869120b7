use vstd::prelude::*;
use crate::syntax::Term;

verus! {

/// `x + d` reduced into the range of `usize`, for `-2^N <= x + d < 2^(N+1)`.
pub open spec fn wrap_add(x: usize, d: int) -> usize {
    if x + d > usize::MAX {
        (x + d - (usize::MAX + 1)) as usize
    } else if x + d < 0 {
        (x + d + (usize::MAX + 1)) as usize
    } else {
        (x + d) as usize
    }
}

/// Shifts by `d` every variable of `t` whose index is at least the cutoff `c`;
/// the cutoff grows by one under each binder. The recorded context length of
/// every variable moves by `d`, free or not.
pub open spec fn shift_from(d: int, c: int, t: Term) -> Term
    decreases t,
{
    match t {
        Term::Var(x, n) => Term::Var(if x >= c { wrap_add(x, d) } else { x }, wrap_add(n, d)),
        Term::Abs(name, ty, b) => Term::Abs(name, ty, Box::new(shift_from(d, c + 1, *b))),
        Term::App(t1, t2) => Term::App(
            Box::new(shift_from(d, c, *t1)),
            Box::new(shift_from(d, c, *t2)),
        ),
        Term::True => Term::True,
        Term::False => Term::False,
        Term::If(t1, t2, t3) => Term::If(
            Box::new(shift_from(d, c, *t1)),
            Box::new(shift_from(d, c, *t2)),
            Box::new(shift_from(d, c, *t3)),
        ),
    }
}

/// Shifts the free variables of `t` by `d`.
pub open spec fn shift_term(d: int, t: Term) -> Term {
    shift_from(d, 0, t)
}

/// Replaces the variable `j + c` by `s` shifted up by `c`, where `c` counts the
/// binders passed on the way down.
pub open spec fn subst_from(j: int, s: Term, c: int, t: Term) -> Term
    decreases t,
{
    match t {
        Term::Var(x, _) => if x == j + c {
            shift_from(c, 0, s)
        } else {
            t
        },
        Term::Abs(name, ty, b) => Term::Abs(name, ty, Box::new(subst_from(j, s, c + 1, *b))),
        Term::App(t1, t2) => Term::App(
            Box::new(subst_from(j, s, c, *t1)),
            Box::new(subst_from(j, s, c, *t2)),
        ),
        Term::True => Term::True,
        Term::False => Term::False,
        Term::If(t1, t2, t3) => Term::If(
            Box::new(subst_from(j, s, c, *t1)),
            Box::new(subst_from(j, s, c, *t2)),
            Box::new(subst_from(j, s, c, *t3)),
        ),
    }
}

/// Replaces the free variable `j` of `t` by `s`.
pub open spec fn subst_term(j: int, s: Term, t: Term) -> Term {
    subst_from(j, s, 0, t)
}

/// Beta reduction's substitution: `s` for the outermost bound variable of a body `t`,
/// after which that binder is gone.
pub open spec fn subst_top(s: Term, t: Term) -> Term {
    shift_term(-1, subst_term(0, shift_term(1, s), t))
}

/// Shifting `t` by `d` under cutoff `c` keeps each free variable free and in range:
/// it lands at an index of at least the cutoff and at most `usize::MAX`.
pub open spec fn shift_keeps_free(d: int, c: int, t: Term) -> bool
    decreases t,
{
    match t {
        Term::Var(x, _) => x >= c ==> c <= x + d <= usize::MAX,
        Term::Abs(_, _, b) => shift_keeps_free(d, c + 1, *b),
        Term::App(t1, t2) => shift_keeps_free(d, c, *t1) && shift_keeps_free(d, c, *t2),
        Term::True | Term::False => true,
        Term::If(t1, t2, t3) => shift_keeps_free(d, c, *t1) && shift_keeps_free(d, c, *t2)
            && shift_keeps_free(d, c, *t3),
    }
}

proof fn lemma_shift_inverse_from(d: int, c: int, t: Term)
    requires
        -usize::MAX <= d <= usize::MAX,
        shift_keeps_free(d, c, t),
    ensures
        shift_from(-d, c, shift_from(d, c, t)) == t,
    decreases t,
{
    match t {
        Term::Abs(_, _, b) => lemma_shift_inverse_from(d, c + 1, *b),
        Term::App(t1, t2) => {
            lemma_shift_inverse_from(d, c, *t1);
            lemma_shift_inverse_from(d, c, *t2);
        },
        Term::If(t1, t2, t3) => {
            lemma_shift_inverse_from(d, c, *t1);
            lemma_shift_inverse_from(d, c, *t2);
            lemma_shift_inverse_from(d, c, *t3);
        },
        _ => {},
    }
}

/// Shifting back undoes a shift: `shift(-d, shift(d, t)) == t`, for every shift
/// that keeps each free variable free and within the range of indices.
pub proof fn lemma_shift_inverse(d: int, t: Term)
    requires
        -usize::MAX <= d <= usize::MAX,
        shift_keeps_free(d, 0, t),
    ensures
        shift_term(-d, shift_term(d, t)) == t,
{
    lemma_shift_inverse_from(d, 0, t);
}

/// A shift amount given as a sign and a magnitude.
pub open spec fn delta_of(neg: bool, mag: usize) -> int {
    if neg {
        -(mag as int)
    } else {
        mag as int
    }
}

/// One index or context length moved by the amount, modulo the range of `usize`.
fn shift_index(neg: bool, mag: usize, x: usize) -> (r: usize)
    ensures
        r == wrap_add(x, delta_of(neg, mag)),
{
    if neg {
        x.wrapping_sub(mag)
    } else {
        x.wrapping_add(mag)
    }
}

/// Shift under a cutoff `c` beyond every `usize` index: only context lengths move.
fn shift_lengths(neg: bool, mag: usize, Ghost(c): Ghost<int>, t: &Term) -> (r: Term)
    requires
        c > usize::MAX,
    ensures
        r == shift_from(delta_of(neg, mag), c, *t),
    decreases t,
{
    match t {
        Term::Var(x, n) => Term::Var(*x, shift_index(neg, mag, *n)),
        Term::Abs(name, ty, b) => Term::Abs(
            name.clone(),
            ty.clone(),
            Box::new(shift_lengths(neg, mag, Ghost(c + 1), b)),
        ),
        Term::App(t1, t2) => Term::App(
            Box::new(shift_lengths(neg, mag, Ghost(c), t1)),
            Box::new(shift_lengths(neg, mag, Ghost(c), t2)),
        ),
        Term::True => Term::True,
        Term::False => Term::False,
        Term::If(t1, t2, t3) => Term::If(
            Box::new(shift_lengths(neg, mag, Ghost(c), t1)),
            Box::new(shift_lengths(neg, mag, Ghost(c), t2)),
            Box::new(shift_lengths(neg, mag, Ghost(c), t3)),
        ),
    }
}

/// Shift by the amount under cutoff `c`.
fn shift_walk(neg: bool, mag: usize, c: usize, t: &Term) -> (r: Term)
    ensures
        r == shift_from(delta_of(neg, mag), c as int, *t),
    decreases t,
{
    match t {
        Term::Var(x, n) => {
            let x2 = if *x >= c {
                shift_index(neg, mag, *x)
            } else {
                *x
            };
            Term::Var(x2, shift_index(neg, mag, *n))
        },
        Term::Abs(name, ty, b) => {
            let b2 = if c < usize::MAX {
                shift_walk(neg, mag, c + 1, b)
            } else {
                shift_lengths(neg, mag, Ghost(c + 1), b)
            };
            Term::Abs(name.clone(), ty.clone(), Box::new(b2))
        },
        Term::App(t1, t2) => Term::App(
            Box::new(shift_walk(neg, mag, c, t1)),
            Box::new(shift_walk(neg, mag, c, t2)),
        ),
        Term::True => Term::True,
        Term::False => Term::False,
        Term::If(t1, t2, t3) => Term::If(
            Box::new(shift_walk(neg, mag, c, t1)),
            Box::new(shift_walk(neg, mag, c, t2)),
            Box::new(shift_walk(neg, mag, c, t3)),
        ),
    }
}

/// Adds `d` to every free variable index of `t` (modulo the range of `usize`).
pub fn term_shift(d: isize, t: &Term) -> (r: Term)
    ensures
        r == shift_term(d as int, *t),
{
    if d < 0 {
        let mag = ((-(d + 1)) as usize) + 1;
        shift_walk(true, mag, 0, t)
    } else {
        shift_walk(false, d as usize, 0, t)
    }
}

/// A variable beyond every `usize` index occurs nowhere: substituting it changes nothing.
proof fn lemma_subst_beyond(j: int, s: Term, c: int, t: Term)
    requires
        j + c > usize::MAX,
    ensures
        subst_from(j, s, c, t) == t,
    decreases t,
{
    match t {
        Term::Abs(_, _, b) => lemma_subst_beyond(j, s, c + 1, *b),
        Term::App(t1, t2) => {
            lemma_subst_beyond(j, s, c, *t1);
            lemma_subst_beyond(j, s, c, *t2);
        },
        Term::If(t1, t2, t3) => {
            lemma_subst_beyond(j, s, c, *t1);
            lemma_subst_beyond(j, s, c, *t2);
            lemma_subst_beyond(j, s, c, *t3);
        },
        _ => {},
    }
}

/// Substitution for variable `j + c` under cutoff `c`. Once the cutoff would pass
/// `usize::MAX` no index can match, and the body is copied unchanged.
fn subst_walk(j: usize, s: &Term, c: usize, t: &Term) -> (r: Term)
    ensures
        r == subst_from(j as int, *s, c as int, *t),
    decreases t,
{
    match t {
        Term::Var(x, n) => {
            if *x >= c && *x - c == j {
                shift_walk(false, c, 0, s)
            } else {
                Term::Var(*x, *n)
            }
        },
        Term::Abs(name, ty, b) => {
            let b2 = if c < usize::MAX {
                subst_walk(j, s, c + 1, b)
            } else {
                proof {
                    lemma_subst_beyond(j as int, *s, c + 1, **b);
                }
                (**b).clone()
            };
            Term::Abs(name.clone(), ty.clone(), Box::new(b2))
        },
        Term::App(t1, t2) => Term::App(
            Box::new(subst_walk(j, s, c, t1)),
            Box::new(subst_walk(j, s, c, t2)),
        ),
        Term::True => Term::True,
        Term::False => Term::False,
        Term::If(t1, t2, t3) => Term::If(
            Box::new(subst_walk(j, s, c, t1)),
            Box::new(subst_walk(j, s, c, t2)),
            Box::new(subst_walk(j, s, c, t3)),
        ),
    }
}

/// Replaces every free occurrence of variable `j` in `t` by `s`, shifting `s`
/// under the binders it is carried beneath.
pub fn term_subst(j: usize, s: &Term, t: &Term) -> (r: Term)
    ensures
        r == subst_term(j as int, *s, *t),
{
    subst_walk(j, s, 0, t)
}

/// The substitution of beta reduction: shift `s` up, substitute it for variable 0
/// of `t`, and shift the result down past the removed binder.
pub fn term_subst_top(s: &Term, t: &Term) -> (r: Term)
    ensures
        r == subst_top(*s, *t),
{
    let s1 = term_shift(1, s);
    let t1 = term_subst(0, &s1, t);
    term_shift(-1, &t1)
}

} // verus!

use vstd::prelude::*;
use crate::eval::{run, step, EvalError};
use crate::shift::{shift_from, subst_from};
use crate::syntax::{is_value, Binding, Term};
use crate::typing::typing;

verus! {

/// `t1` and `t2` have the same index structure and annotations; only the display
/// names of their binders may differ.
pub open spec fn alike(t1: Term, t2: Term) -> bool
    decreases t1,
{
    match (t1, t2) {
        (Term::Var(i1, n1), Term::Var(i2, n2)) => i1 == i2 && n1 == n2,
        (Term::Abs(_, ty1, b1), Term::Abs(_, ty2, b2)) => ty1 == ty2 && alike(*b1, *b2),
        (Term::App(a1, b1), Term::App(a2, b2)) => alike(*a1, *a2) && alike(*b1, *b2),
        (Term::True, Term::True) => true,
        (Term::False, Term::False) => true,
        (Term::If(a1, b1, e1), Term::If(a2, b2, e2)) => alike(*a1, *a2) && alike(*b1, *b2)
            && alike(*e1, *e2),
        _ => false,
    }
}

/// Two contexts that hold the same bindings, whatever their names.
pub open spec fn same_bindings(c1: Seq<(String, Binding)>, c2: Seq<(String, Binding)>) -> bool {
    c1.len() == c2.len() && forall|i: int| 0 <= i < c1.len() ==> #[trigger] c1[i].1 == c2[i].1
}

/// Two evaluation outcomes that agree up to the names of binders.
pub open spec fn outcomes_alike(
    o1: Option<Result<Term, EvalError>>,
    o2: Option<Result<Term, EvalError>>,
) -> bool {
    match (o1, o2) {
        (None, None) => true,
        (Some(Err(e1)), Some(Err(e2))) => e1 == e2,
        (Some(Ok(v1)), Some(Ok(v2))) => alike(v1, v2),
        _ => false,
    }
}

proof fn lemma_alike_typing(c1: Seq<(String, Binding)>, c2: Seq<(String, Binding)>, t1: Term, t2: Term)
    requires
        alike(t1, t2),
        same_bindings(c1, c2),
    ensures
        typing(c1, t1) == typing(c2, t2),
    decreases t1,
{
    match (t1, t2) {
        (Term::Abs(x1, ty1, b1), Term::Abs(x2, ty2, b2)) => {
            let e1 = seq![(x1, Binding::VarBind(ty1))] + c1;
            let e2 = seq![(x2, Binding::VarBind(ty2))] + c2;
            assert forall|i: int| 0 <= i < e1.len() implies #[trigger] e1[i].1 == e2[i].1 by {
                if i > 0 {
                    assert(e1[i] == c1[i - 1]);
                    assert(e2[i] == c2[i - 1]);
                }
            }
            lemma_alike_typing(e1, e2, *b1, *b2);
        },
        (Term::App(a1, b1), Term::App(a2, b2)) => {
            lemma_alike_typing(c1, c2, *a1, *a2);
            lemma_alike_typing(c1, c2, *b1, *b2);
        },
        (Term::If(a1, b1, e1), Term::If(a2, b2, e2)) => {
            lemma_alike_typing(c1, c2, *a1, *a2);
            lemma_alike_typing(c1, c2, *b1, *b2);
            lemma_alike_typing(c1, c2, *e1, *e2);
        },
        _ => {},
    }
}

proof fn lemma_alike_shift(d: int, c: int, t1: Term, t2: Term)
    requires
        alike(t1, t2),
    ensures
        alike(shift_from(d, c, t1), shift_from(d, c, t2)),
    decreases t1,
{
    match (t1, t2) {
        (Term::Abs(_, _, b1), Term::Abs(_, _, b2)) => lemma_alike_shift(d, c + 1, *b1, *b2),
        (Term::App(a1, b1), Term::App(a2, b2)) => {
            lemma_alike_shift(d, c, *a1, *a2);
            lemma_alike_shift(d, c, *b1, *b2);
        },
        (Term::If(a1, b1, e1), Term::If(a2, b2, e2)) => {
            lemma_alike_shift(d, c, *a1, *a2);
            lemma_alike_shift(d, c, *b1, *b2);
            lemma_alike_shift(d, c, *e1, *e2);
        },
        _ => {},
    }
}

proof fn lemma_alike_subst(j: int, s1: Term, s2: Term, c: int, t1: Term, t2: Term)
    requires
        alike(s1, s2),
        alike(t1, t2),
    ensures
        alike(subst_from(j, s1, c, t1), subst_from(j, s2, c, t2)),
    decreases t1,
{
    match (t1, t2) {
        (Term::Var(_, _), Term::Var(_, _)) => lemma_alike_shift(c, 0, s1, s2),
        (Term::Abs(_, _, b1), Term::Abs(_, _, b2)) => lemma_alike_subst(j, s1, s2, c + 1, *b1, *b2),
        (Term::App(a1, b1), Term::App(a2, b2)) => {
            lemma_alike_subst(j, s1, s2, c, *a1, *a2);
            lemma_alike_subst(j, s1, s2, c, *b1, *b2);
        },
        (Term::If(a1, b1, e1), Term::If(a2, b2, e2)) => {
            lemma_alike_subst(j, s1, s2, c, *a1, *a2);
            lemma_alike_subst(j, s1, s2, c, *b1, *b2);
            lemma_alike_subst(j, s1, s2, c, *e1, *e2);
        },
        _ => {},
    }
}

proof fn lemma_alike_parts(t1: Term, t2: Term)
    requires
        alike(t1, t2),
    ensures
        t1 is Var <==> t2 is Var,
        t1 is Abs <==> t2 is Abs,
        t1 is App <==> t2 is App,
        t1 is True <==> t2 is True,
        t1 is False <==> t2 is False,
        t1 is If <==> t2 is If,
        t1 is Abs ==> alike(*t1->Abs_2, *t2->Abs_2),
        t1 is App ==> alike(*t1->App_0, *t2->App_0) && alike(*t1->App_1, *t2->App_1),
        t1 is If ==> alike(*t1->If_0, *t2->If_0) && alike(*t1->If_1, *t2->If_1) && alike(
            *t1->If_2,
            *t2->If_2,
        ),
{
}

proof fn lemma_alike_step(t1: Term, t2: Term)
    requires
        alike(t1, t2),
    ensures
        is_value(t1) == is_value(t2),
        step(t1) is Ok <==> step(t2) is Ok,
        step(t1) is Ok ==> alike(step(t1)->Ok_0, step(t2)->Ok_0),
        step(t1) is Err ==> step(t1) == step(t2),
    decreases t1,
{
    match (t1, t2) {
        (Term::App(a1, b1), Term::App(a2, b2)) => {
            lemma_alike_parts(t1, t2);
            lemma_alike_parts(*a1, *a2);
            lemma_alike_step(*a1, *a2);
            lemma_alike_step(*b1, *b2);
            if let (Term::Abs(_, _, body1), Term::Abs(_, _, body2)) = (*a1, *a2) {
                lemma_alike_shift(1, 0, *b1, *b2);
                lemma_alike_subst(0, shift_from(1, 0, *b1), shift_from(1, 0, *b2), 0, *body1, *body2);
                lemma_alike_shift(
                    -1,
                    0,
                    subst_from(0, shift_from(1, 0, *b1), 0, *body1),
                    subst_from(0, shift_from(1, 0, *b2), 0, *body2),
                );
            }
        },
        (Term::If(a1, _, _), Term::If(a2, _, _)) => {
            lemma_alike_parts(t1, t2);
            lemma_alike_parts(*a1, *a2);
            lemma_alike_step(*a1, *a2);
        },
        _ => {},
    }
}

proof fn lemma_alike_run(t1: Term, t2: Term, n: nat)
    requires
        alike(t1, t2),
    ensures
        outcomes_alike(run(t1, n), run(t2, n)),
    decreases n,
{
    lemma_alike_step(t1, t2);
    if !is_value(t1) && step(t1) is Ok && n > 0 {
        lemma_alike_run(step(t1)->Ok_0, step(t2)->Ok_0, (n - 1) as nat);
    }
}

/// Alpha-invariance: renaming the binders of a term, or the slots of its context,
/// changes neither its type nor how it evaluates: after any number of steps both
/// terms end alike, or both are still running.
pub proof fn lemma_alpha_invariance(
    c1: Seq<(String, Binding)>,
    c2: Seq<(String, Binding)>,
    t1: Term,
    t2: Term,
)
    requires
        alike(t1, t2),
        same_bindings(c1, c2),
    ensures
        typing(c1, t1) == typing(c2, t2),
        forall|n: nat| outcomes_alike(#[trigger] run(t1, n), run(t2, n)),
{
    lemma_alike_typing(c1, c2, t1, t2);
    assert forall|n: nat| outcomes_alike(#[trigger] run(t1, n), run(t2, n)) by {
        lemma_alike_run(t1, t2, n);
    }
}

} // verus!

use simplebool::eval::{big_step_eval, eval, eval1, EvalError};
use simplebool::render::{pickup_freshname, render_term, RenderError};
use simplebool::shift::{term_shift, term_subst, term_subst_top};
use simplebool::syntax::{is_val, Binding, Context, Term, Ty};
use simplebool::typing::{add_binding, get_type_from_context, type_of, TypeError};

fn b(t: Term) -> Box<Term> {
    Box::new(t)
}

fn arrow(a: Ty, c: Ty) -> Ty {
    Ty::Arrow(Box::new(a), Box::new(c))
}

fn var(i: usize, n: usize) -> Term {
    Term::Var(i, n)
}

fn abs(x: &str, ty: Ty, body: Term) -> Term {
    Term::Abs(x.to_string(), ty, b(body))
}

fn app(t1: Term, t2: Term) -> Term {
    Term::App(b(t1), b(t2))
}

fn ite(t1: Term, t2: Term, t3: Term) -> Term {
    Term::If(b(t1), b(t2), b(t3))
}

/// λb:Bool. λc:Bool. if b then c else false
fn and() -> Term {
    abs("b", Ty::Bool, abs("c", Ty::Bool, ite(var(1, 2), var(0, 2), Term::False)))
}

fn identity_on_bool(name: &str) -> Term {
    abs(name, Ty::Bool, ite(var(0, 1), Term::True, Term::False))
}

#[test]
fn if_true_evaluates_to_then_branch() {
    let t = ite(Term::True, Term::False, Term::True);
    assert_eq!(eval(&t), Ok(Term::False));
}

#[test]
fn and_combinator() {
    let t = app(app(and(), Term::True), Term::False);
    assert_eq!(eval(&t), Ok(Term::False));
    let t = app(app(and(), Term::True), Term::True);
    assert_eq!(eval(&t), Ok(Term::True));
    let t = app(app(and(), Term::False), Term::True);
    assert_eq!(eval(&t), Ok(Term::False));
    assert_eq!(type_of(&Vec::new(), &and()), Ok(arrow(Ty::Bool, arrow(Ty::Bool, Ty::Bool))));
}

#[test]
fn type_of_abstraction() {
    let ctx: Context = Vec::new();
    assert_eq!(type_of(&ctx, &identity_on_bool("b")), Ok(arrow(Ty::Bool, Ty::Bool)));
}

#[test]
fn application_to_conditional() {
    let t = app(identity_on_bool("b"), ite(Term::False, Term::True, Term::False));
    assert_eq!(eval(&t), Ok(Term::False));
    assert_eq!(type_of(&Vec::new(), &t), Ok(Ty::Bool));
}

#[test]
fn applying_a_boolean_is_not_a_function() {
    let t = app(Term::True, Term::True);
    assert_eq!(type_of(&Vec::new(), &t), Err(TypeError::NotAFunction));
    assert_eq!(eval1(&t), Err(EvalError::StuckTerm));
    assert_eq!(eval(&t), Err(EvalError::StuckTerm));
}

#[test]
fn subst_top_shifts_remaining_variable_down() {
    let body = app(var(0, 2), var(1, 2));
    assert_eq!(term_subst_top(&Term::True, &body), app(Term::True, var(0, 1)));
}

#[test]
fn type_errors() {
    let ctx: Context = Vec::new();
    assert_eq!(type_of(&ctx, &var(0, 0)), Err(TypeError::UnboundOrMisTypedVariable));
    let named = add_binding(&ctx, &"x".to_string(), Binding::NameBind);
    assert_eq!(type_of(&named, &var(0, 1)), Err(TypeError::UnboundOrMisTypedVariable));
    let t = app(identity_on_bool("b"), identity_on_bool("c"));
    assert_eq!(type_of(&ctx, &t), Err(TypeError::ArgumentTypeMismatch));
    let t = ite(identity_on_bool("b"), Term::True, Term::False);
    assert_eq!(type_of(&ctx, &t), Err(TypeError::GuardNotBoolean));
    let t = ite(Term::True, Term::True, identity_on_bool("b"));
    assert_eq!(type_of(&ctx, &t), Err(TypeError::BranchTypeMismatch));
}

#[test]
fn context_lookup() {
    let ctx: Context = Vec::new();
    let ctx = add_binding(&ctx, &"x".to_string(), Binding::VarBind(Ty::Bool));
    let ctx = add_binding(&ctx, &"f".to_string(), Binding::VarBind(arrow(Ty::Bool, Ty::Bool)));
    assert_eq!(ctx.len(), 2);
    assert_eq!(ctx[0].0, "f");
    assert_eq!(get_type_from_context(&ctx, 0), Ok(arrow(Ty::Bool, Ty::Bool)));
    assert_eq!(get_type_from_context(&ctx, 1), Ok(Ty::Bool));
    assert_eq!(get_type_from_context(&ctx, 2), Err(TypeError::UnboundOrMisTypedVariable));
    assert_eq!(type_of(&ctx, &app(var(0, 2), var(1, 2))), Ok(Ty::Bool));
}

#[test]
fn values() {
    assert!(is_val(&Term::True));
    assert!(is_val(&Term::False));
    assert!(is_val(&identity_on_bool("b")));
    assert!(!is_val(&var(0, 1)));
    assert!(!is_val(&app(Term::True, Term::True)));
}

#[test]
fn shift_moves_free_variables_only() {
    let t = abs("x", Ty::Bool, app(var(0, 1), var(1, 1)));
    assert_eq!(term_shift(2, &t), abs("x", Ty::Bool, app(var(0, 3), var(3, 3))));
    let t = app(var(0, 1), var(4, 1));
    assert_eq!(term_shift(-1, &app(var(1, 2), var(5, 2))), t);
}

#[test]
fn shift_then_unshift_is_identity() {
    let t = abs("x", Ty::Bool, app(var(0, 1), ite(var(1, 1), var(2, 3), Term::True)));
    for d in [0isize, 1, 2, 7] {
        assert_eq!(term_shift(-d, &term_shift(d, &t)), t);
    }
}

#[test]
fn subst_replaces_under_binders() {
    let t = abs("x", Ty::Bool, app(var(0, 2), var(1, 2)));
    let s = var(3, 1);
    assert_eq!(term_subst(0, &s, &t), abs("x", Ty::Bool, app(var(0, 2), var(4, 2))));
    assert_eq!(term_subst(2, &s, &t), t);
}

#[test]
fn renaming_binders_changes_nothing() {
    let t1 = app(identity_on_bool("b"), Term::True);
    let t2 = app(identity_on_bool("other"), Term::True);
    assert_eq!(eval(&t1), eval(&t2));
    assert_eq!(type_of(&Vec::new(), &t1), type_of(&Vec::new(), &t2));
}

#[test]
fn step_keeps_type_and_makes_progress() {
    let t = app(app(and(), Term::True), ite(Term::True, Term::False, Term::True));
    let ctx: Context = Vec::new();
    let ty = type_of(&ctx, &t);
    assert_eq!(ty, Ok(Ty::Bool));
    let mut u = t;
    while !is_val(&u) {
        let next = eval1(&u);
        assert!(next.is_ok());
        u = next.unwrap();
        assert_eq!(type_of(&ctx, &u), ty);
    }
    assert_eq!(u, Term::False);
}

#[test]
fn step_is_deterministic() {
    let t = app(app(and(), Term::True), ite(Term::True, Term::False, Term::True));
    assert_eq!(eval1(&t), eval1(&t));
    assert_eq!(eval1(&t), Ok(app(abs("c", Ty::Bool, ite(Term::True, var(0, 1), Term::False)), ite(Term::True, Term::False, Term::True))));
}

#[test]
fn fresh_names() {
    let ctx: Context = Vec::new();
    let (ctx1, x1) = pickup_freshname(&ctx, &"x".to_string());
    assert_eq!(x1, "x");
    let (ctx2, x2) = pickup_freshname(&ctx1, &"x".to_string());
    assert_eq!(x2, "x'");
    let (ctx3, x3) = pickup_freshname(&ctx2, &"x".to_string());
    assert_eq!(x3, "x''");
    assert_eq!(ctx3.len(), 3);
    assert_eq!(ctx3[0].0, "x''");
    assert_eq!(ctx3[2].0, "x");
}

#[test]
fn render_terms() {
    let ctx: Context = Vec::new();
    assert_eq!(render_term(&ctx, &identity_on_bool("b")), Ok("(λ b:Bool. If b then True else False)".to_string()));
    let ctx = add_binding(&ctx, &"x".to_string(), Binding::NameBind);
    let t = abs("x", arrow(Ty::Bool, Ty::Bool), app(var(0, 2), var(1, 2)));
    assert_eq!(render_term(&ctx, &t), Ok("(λ x':Arrow(Bool, Bool). (x' x))".to_string()));
    assert_eq!(render_term(&ctx, &var(0, 2)), Err(RenderError::IndexConsistencyViolation));
    assert_eq!(render_term(&ctx, &var(1, 1)), Err(RenderError::IndexConsistencyViolation));
}

#[test]
fn big_step_agrees_with_small_step() {
    let terms = vec![
        ite(Term::True, Term::False, Term::True),
        app(app(and(), Term::True), Term::False),
        app(app(and(), Term::True), Term::True),
        app(identity_on_bool("b"), ite(Term::False, Term::True, Term::False)),
        app(Term::True, Term::True),
        ite(identity_on_bool("b"), Term::True, Term::False),
        var(0, 0),
    ];
    for t in terms {
        assert_eq!(big_step_eval(&t), eval(&t));
    }
    assert_eq!(big_step_eval(&app(app(and(), Term::True), Term::False)), Ok(Term::False));
    assert_eq!(big_step_eval(&app(Term::True, Term::True)), Err(EvalError::StuckTerm));
}

#[test]
fn shift_wraps_within_index_range() {
    assert_eq!(term_shift(-1, &var(0, 0)), var(usize::MAX, usize::MAX));
    assert_eq!(term_shift(1, &var(usize::MAX, 3)), var(0, 4));
    assert_eq!(term_shift(1, &abs("x", Ty::Bool, var(0, 1))), abs("x", Ty::Bool, var(0, 2)));
}

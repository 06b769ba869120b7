use vstd::prelude::*;
use crate::syntax::{Binding, Context, Term, Ty};

verus! {

/// Why a term has no type.
#[derive(Debug, PartialEq, Eq, Structural, Clone, Copy)]
pub enum TypeError {
    UnboundOrMisTypedVariable,
    NotAFunction,
    ArgumentTypeMismatch,
    GuardNotBoolean,
    BranchTypeMismatch,
}

/// `ctx` with a new innermost slot for `x`.
pub open spec fn extend(ctx: Seq<(String, Binding)>, x: String, b: Binding) -> Seq<(String, Binding)> {
    seq![(x, b)] + ctx
}

/// The type of variable `i`: slot `i` must exist and hold a typed binding.
pub open spec fn lookup_type(ctx: Seq<(String, Binding)>, i: int) -> Result<Ty, TypeError> {
    if 0 <= i < ctx.len() {
        match ctx[i].1 {
            Binding::VarBind(ty) => Ok(ty),
            Binding::NameBind => Err(TypeError::UnboundOrMisTypedVariable),
        }
    } else {
        Err(TypeError::UnboundOrMisTypedVariable)
    }
}

/// The typing rules, one per constructor. An application types its function first,
/// then its argument; a conditional types its guard, then both branches.
pub open spec fn typing(ctx: Seq<(String, Binding)>, t: Term) -> Result<Ty, TypeError>
    decreases t,
{
    match t {
        Term::Var(i, _) => lookup_type(ctx, i as int),
        Term::Abs(x, ty1, body) => match typing(extend(ctx, x, Binding::VarBind(ty1)), *body) {
            Ok(ty2) => Ok(Ty::Arrow(Box::new(ty1), Box::new(ty2))),
            Err(e) => Err(e),
        },
        Term::App(t1, t2) => match typing(ctx, *t1) {
            Err(e) => Err(e),
            Ok(Ty::Bool) => Err(TypeError::NotAFunction),
            Ok(Ty::Arrow(dom, cod)) => match typing(ctx, *t2) {
                Err(e) => Err(e),
                Ok(ty2) => if ty2 == *dom {
                    Ok(*cod)
                } else {
                    Err(TypeError::ArgumentTypeMismatch)
                },
            },
        },
        Term::True => Ok(Ty::Bool),
        Term::False => Ok(Ty::Bool),
        Term::If(t1, t2, t3) => match typing(ctx, *t1) {
            Err(e) => Err(e),
            Ok(Ty::Arrow(_, _)) => Err(TypeError::GuardNotBoolean),
            Ok(Ty::Bool) => match typing(ctx, *t2) {
                Err(e) => Err(e),
                Ok(ty2) => match typing(ctx, *t3) {
                    Err(e) => Err(e),
                    Ok(ty3) => if ty2 == ty3 {
                        Ok(ty2)
                    } else {
                        Err(TypeError::BranchTypeMismatch)
                    },
                },
            },
        },
    }
}

/// A new context with `(x, bind)` as its innermost slot; `ctx` is left as it was.
pub fn add_binding(ctx: &Context, x: &String, bind: Binding) -> (r: Context)
    ensures
        r@ == extend(ctx@, *x, bind),
{
    let mut r: Context = Vec::new();
    r.push((x.clone(), bind));
    let mut i: usize = 0;
    while i < ctx.len()
        invariant
            i <= ctx@.len(),
            r@ == extend(ctx@.subrange(0, i as int), *x, bind),
        decreases ctx@.len() - i,
    {
        let slot = (ctx[i].0.clone(), ctx[i].1.clone());
        r.push(slot);
        i = i + 1;
        assert(r@ =~= extend(ctx@.subrange(0, i as int), *x, bind));
    }
    assert(ctx@.subrange(0, ctx@.len() as int) =~= ctx@);
    r
}

/// The type bound to variable `i` in `ctx`.
pub fn get_type_from_context(ctx: &Context, i: usize) -> (r: Result<Ty, TypeError>)
    ensures
        r == lookup_type(ctx@, i as int),
{
    if i < ctx.len() {
        match &ctx[i].1 {
            Binding::VarBind(ty) => Ok(ty.clone()),
            Binding::NameBind => Err(TypeError::UnboundOrMisTypedVariable),
        }
    } else {
        Err(TypeError::UnboundOrMisTypedVariable)
    }
}

/// Infers the type of `t` in `ctx`, or the first rule it breaks.
pub fn type_of(ctx: &Context, t: &Term) -> (r: Result<Ty, TypeError>)
    ensures
        r == typing(ctx@, *t),
    decreases t,
{
    match t {
        Term::Var(i, _) => get_type_from_context(ctx, *i),
        Term::Abs(x, ty1, body) => {
            let new_ctx = add_binding(ctx, x, Binding::VarBind(ty1.clone()));
            match type_of(&new_ctx, body) {
                Ok(ty2) => Ok(Ty::Arrow(Box::new(ty1.clone()), Box::new(ty2))),
                Err(e) => Err(e),
            }
        },
        Term::App(t1, t2) => match type_of(ctx, t1) {
            Err(e) => Err(e),
            Ok(Ty::Bool) => Err(TypeError::NotAFunction),
            Ok(Ty::Arrow(dom, cod)) => match type_of(ctx, t2) {
                Err(e) => Err(e),
                Ok(ty2) => if ty2 == *dom {
                    Ok(*cod)
                } else {
                    Err(TypeError::ArgumentTypeMismatch)
                },
            },
        },
        Term::True => Ok(Ty::Bool),
        Term::False => Ok(Ty::Bool),
        Term::If(t1, t2, t3) => match type_of(ctx, t1) {
            Err(e) => Err(e),
            Ok(Ty::Arrow(_, _)) => Err(TypeError::GuardNotBoolean),
            Ok(Ty::Bool) => match type_of(ctx, t2) {
                Err(e) => Err(e),
                Ok(ty2) => match type_of(ctx, t3) {
                    Err(e) => Err(e),
                    Ok(ty3) => if ty2 == ty3 {
                        Ok(ty2)
                    } else {
                        Err(TypeError::BranchTypeMismatch)
                    },
                },
            },
        },
    }
}

} // verus!

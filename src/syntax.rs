use vstd::prelude::*;

verus! {

/// Types of the simply-typed calculus: booleans and functions.
#[derive(Debug, Eq)]
pub enum Ty {
    Bool,
    Arrow(Box<Ty>, Box<Ty>),
}

impl Clone for Ty {
    fn clone(&self) -> (r: Self)
        ensures
            r == *self,
        decreases self,
    {
        match self {
            Ty::Bool => Ty::Bool,
            Ty::Arrow(a, b) => Ty::Arrow(Box::new((**a).clone()), Box::new((**b).clone())),
        }
    }
}

impl PartialEq for Ty {
    fn eq(&self, o: &Ty) -> (r: bool)
        decreases self,
    {
        match (self, o) {
            (Ty::Bool, Ty::Bool) => true,
            (Ty::Arrow(a1, b1), Ty::Arrow(a2, b2)) => (**a1).eq(&**a2) && (**b1).eq(&**b2),
            _ => false,
        }
    }
}

impl vstd::std_specs::cmp::PartialEqSpecImpl for Ty {
    open spec fn obeys_eq_spec() -> bool {
        true
    }

    open spec fn eq_spec(&self, o: &Ty) -> bool {
        *self == *o
    }
}

/// Terms in locally-nameless form. `Var(index, ctx_len)` addresses its binder by
/// de Bruijn index; `ctx_len` records the length of the context the index was
/// minted in and serves only as a consistency check when rendering.
/// The name carried by `Abs` is a display hint and never used for resolution.
#[derive(Debug, PartialEq, Eq)]
pub enum Term {
    Var(usize, usize),
    Abs(String, Ty, Box<Term>),
    App(Box<Term>, Box<Term>),
    True,
    False,
    If(Box<Term>, Box<Term>, Box<Term>),
}

impl Clone for Term {
    fn clone(&self) -> (r: Self)
        ensures
            r == *self,
        decreases self,
    {
        match self {
            Term::Var(i, n) => Term::Var(*i, *n),
            Term::Abs(x, ty, body) => Term::Abs(x.clone(), ty.clone(), Box::new((**body).clone())),
            Term::App(t1, t2) => Term::App(Box::new((**t1).clone()), Box::new((**t2).clone())),
            Term::True => Term::True,
            Term::False => Term::False,
            Term::If(t1, t2, t3) => Term::If(
                Box::new((**t1).clone()),
                Box::new((**t2).clone()),
                Box::new((**t3).clone()),
            ),
        }
    }
}

/// Values are the terminal states of evaluation: abstractions and boolean literals.
pub open spec fn is_value(t: Term) -> bool {
    match t {
        Term::Abs(_, _, _) | Term::True | Term::False => true,
        _ => false,
    }
}

/// Whether `t` is a value.
pub fn is_val(t: &Term) -> (r: bool)
    ensures
        r == is_value(*t),
{
    match t {
        Term::Abs(_, _, _) | Term::True | Term::False => true,
        _ => false,
    }
}

/// What a context slot holds: a bare name, or a variable with its type.
#[derive(Debug, PartialEq, Eq)]
pub enum Binding {
    NameBind,
    VarBind(Ty),
}

impl Clone for Binding {
    fn clone(&self) -> (r: Self)
        ensures
            r == *self,
    {
        match self {
            Binding::NameBind => Binding::NameBind,
            Binding::VarBind(ty) => Binding::VarBind(ty.clone()),
        }
    }
}

/// A naming context: slot 0 is the innermost binder.
pub type Context = Vec<(String, Binding)>;

} // verus!

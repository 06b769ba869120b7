use vstd::prelude::*;
use vstd::string::*;
use crate::syntax::{Binding, Context, Term, Ty};

verus! {

/// Why a term cannot be rendered against a context.
#[derive(Debug, PartialEq, Eq, Structural, Clone, Copy)]
pub enum RenderError {
    /// A variable was built against a context of another length, or points past it.
    IndexConsistencyViolation,
}

/// The display names of a context, innermost first.
pub open spec fn names_of(ctx: Seq<(String, Binding)>) -> Seq<Seq<char>> {
    ctx.map_values(|p: (String, Binding)| p.0@)
}

/// The length of the longest name.
pub open spec fn longest(names: Seq<Seq<char>>) -> nat
    decreases names.len(),
{
    if names.len() == 0 {
        0
    } else {
        let rest = longest(names.drop_first());
        if names[0].len() > rest {
            names[0].len()
        } else {
            rest
        }
    }
}

pub proof fn lemma_longest(names: Seq<Seq<char>>, i: int)
    requires
        0 <= i < names.len(),
    ensures
        names[i].len() <= longest(names),
    decreases names.len(),
{
    if i > 0 {
        lemma_longest(names.drop_first(), i - 1);
    }
}

/// `x` with as many primes appended as it takes to differ from every name in `names`.
pub open spec fn fresh_name(names: Seq<Seq<char>>, x: Seq<char>) -> Seq<char>
    decreases longest(names) + 1 - x.len(),
{
    if names.contains(x) {
        proof {
            let i = choose|i: int| 0 <= i < names.len() && names[i] == x;
            lemma_longest(names, i);
        }
        fresh_name(names, x + seq!['\''])
    } else {
        x
    }
}

/// The chosen name is in no slot of the context.
pub proof fn lemma_fresh_name_is_fresh(names: Seq<Seq<char>>, x: Seq<char>)
    ensures
        !names.contains(fresh_name(names, x)),
    decreases longest(names) + 1 - x.len(),
{
    if names.contains(x) {
        let i = choose|i: int| 0 <= i < names.len() && names[i] == x;
        lemma_longest(names, i);
        lemma_fresh_name_is_fresh(names, x + seq!['\'']);
    }
}

/// A type as text: `Bool`, `Arrow(dom, cod)`.
pub open spec fn ty_text(ty: Ty) -> Seq<char>
    decreases ty,
{
    match ty {
        Ty::Bool => seq!['B', 'o', 'o', 'l'],
        Ty::Arrow(a, b) => seq!['A', 'r', 'r', 'o', 'w', '('] + ty_text(*a) + seq![',', ' ']
            + ty_text(*b) + seq![')'],
    }
}

/// A term as text, its binders named apart from the names visible around them.
pub open spec fn render_text(names: Seq<Seq<char>>, t: Term) -> Result<Seq<char>, RenderError>
    decreases t,
{
    match t {
        Term::Var(i, n) => if n == names.len() && i < names.len() {
            Ok(names[i as int])
        } else {
            Err(RenderError::IndexConsistencyViolation)
        },
        Term::Abs(x, ty, b) => {
            let y = fresh_name(names, x@);
            match render_text(seq![y] + names, *b) {
                Ok(s) => Ok(seq!['(', 'λ', ' '] + y + seq![':'] + ty_text(ty) + seq!['.', ' '] + s
                    + seq![')']),
                Err(e) => Err(e),
            }
        },
        Term::App(t1, t2) => match (render_text(names, *t1), render_text(names, *t2)) {
            (Ok(s1), Ok(s2)) => Ok(seq!['('] + s1 + seq![' '] + s2 + seq![')']),
            (Err(e), _) => Err(e),
            (_, Err(e)) => Err(e),
        },
        Term::True => Ok(seq!['T', 'r', 'u', 'e']),
        Term::False => Ok(seq!['F', 'a', 'l', 's', 'e']),
        Term::If(t1, t2, t3) => match (
            render_text(names, *t1),
            render_text(names, *t2),
            render_text(names, *t3),
        ) {
            (Ok(s1), Ok(s2), Ok(s3)) => Ok(seq!['I', 'f', ' '] + s1 + seq![
                ' ',
                't',
                'h',
                'e',
                'n',
                ' ',
            ] + s2 + seq![' ', 'e', 'l', 's', 'e', ' '] + s3),
            (Err(e), _, _) => Err(e),
            (_, Err(e), _) => Err(e),
            (_, _, Err(e)) => Err(e),
        },
    }
}

fn name_taken(ctx: &Context, x: &String) -> (r: bool)
    ensures
        r == names_of(ctx@).contains(x@),
{
    let mut i: usize = 0;
    while i < ctx.len()
        invariant
            i <= ctx@.len(),
            forall|k: int| 0 <= k < i ==> ctx@[k].0@ != x@,
        decreases ctx@.len() - i,
    {
        if ctx[i].0 == *x {
            assert(names_of(ctx@)[i as int] == x@);
            return true;
        }
        i = i + 1;
    }
    assert(!names_of(ctx@).contains(x@)) by {
        if names_of(ctx@).contains(x@) {
            let k = choose|k: int| 0 <= k < names_of(ctx@).len() && names_of(ctx@)[k] == x@;
            assert(ctx@[k].0@ == x@);
        }
    }
    false
}

/// Picks a display name for a binder called `x` that no slot of `ctx` uses, and
/// returns `ctx` extended with it.
pub fn pickup_freshname(ctx: &Context, x: &String) -> (r: (Context, String))
    ensures
        r.1@ == fresh_name(names_of(ctx@), x@),
        r.0@ == seq![(r.1, Binding::NameBind)] + ctx@,
{
    let mut name = x.clone();
    while name_taken(ctx, &name)
        invariant
            fresh_name(names_of(ctx@), name@) == fresh_name(names_of(ctx@), x@),
        decreases longest(names_of(ctx@)) + 1 - name@.len(),
    {
        proof {
            let names = names_of(ctx@);
            let i = choose|i: int| 0 <= i < names.len() && names[i] == name@;
            lemma_longest(names, i);
            reveal_strlit("'");
            assert("'"@ =~= seq!['\'']);
        }
        name = name.concat("'");
    }
    let mut r: Context = Vec::new();
    r.push((name.clone(), Binding::NameBind));
    let mut i: usize = 0;
    while i < ctx.len()
        invariant
            i <= ctx@.len(),
            r@ == seq![(name, Binding::NameBind)] + ctx@.subrange(0, i as int),
        decreases ctx@.len() - i,
    {
        let slot = (ctx[i].0.clone(), ctx[i].1.clone());
        r.push(slot);
        i = i + 1;
        assert(r@ =~= seq![(name, Binding::NameBind)] + ctx@.subrange(0, i as int));
    }
    assert(ctx@.subrange(0, ctx@.len() as int) =~= ctx@);
    (r, name)
}

fn ty_to_string(ty: &Ty) -> (r: String)
    ensures
        r@ == ty_text(*ty),
    decreases ty,
{
    match ty {
        Ty::Bool => {
            proof {
                reveal_strlit("Bool");
            }
            let r = String::from_str("Bool");
            assert(r@ =~= seq!['B', 'o', 'o', 'l']);
            r
        },
        Ty::Arrow(a, b) => {
            proof {
                reveal_strlit("Arrow(");
                reveal_strlit(", ");
                reveal_strlit(")");
            }
            let sa = ty_to_string(a);
            let sb = ty_to_string(b);
            let mut r = String::from_str("Arrow(");
            r.append(sa.as_str());
            r.append(", ");
            r.append(sb.as_str());
            r.append(")");
            assert(r@ =~= seq!['A', 'r', 'r', 'o', 'w', '('] + sa@ + seq![',', ' '] + sb@ + seq![')']);
            r
        },
    }
}

/// Renders `t` as text against `ctx`, choosing fresh display names for binders.
pub fn render_term(ctx: &Context, t: &Term) -> (r: Result<String, RenderError>)
    ensures
        match r {
            Ok(s) => render_text(names_of(ctx@), *t) == Ok::<Seq<char>, RenderError>(s@),
            Err(e) => render_text(names_of(ctx@), *t) == Err::<Seq<char>, RenderError>(e),
        },
    decreases t,
{
    match t {
        Term::Var(i, n) => {
            if *n == ctx.len() && *i < ctx.len() {
                assert(names_of(ctx@)[*i as int] == ctx@[*i as int].0@);
                Ok(ctx[*i].0.clone())
            } else {
                Err(RenderError::IndexConsistencyViolation)
            }
        },
        Term::Abs(x, ty, b) => {
            let (new_ctx, y) = pickup_freshname(ctx, x);
            assert(names_of(new_ctx@) =~= seq![y@] + names_of(ctx@));
            match render_term(&new_ctx, b) {
                Ok(sb) => {
                    proof {
                        reveal_strlit("(λ ");
                        reveal_strlit(":");
                        reveal_strlit(". ");
                        reveal_strlit(")");
                    }
                    let sty = ty_to_string(ty);
                    let mut r = String::from_str("(λ ");
                    r.append(y.as_str());
                    r.append(":");
                    r.append(sty.as_str());
                    r.append(". ");
                    r.append(sb.as_str());
                    r.append(")");
                    assert(r@ =~= seq!['(', 'λ', ' '] + y@ + seq![':'] + ty_text(*ty) + seq!['.', ' ']
                        + sb@ + seq![')']);
                    Ok(r)
                },
                Err(e) => Err(e),
            }
        },
        Term::App(t1, t2) => {
            let s1 = render_term(ctx, t1);
            let s2 = render_term(ctx, t2);
            match (s1, s2) {
                (Ok(s1), Ok(s2)) => {
                    proof {
                        reveal_strlit("(");
                        reveal_strlit(" ");
                        reveal_strlit(")");
                    }
                    let mut r = String::from_str("(");
                    r.append(s1.as_str());
                    r.append(" ");
                    r.append(s2.as_str());
                    r.append(")");
                    assert(r@ =~= seq!['('] + s1@ + seq![' '] + s2@ + seq![')']);
                    Ok(r)
                },
                (Err(e), _) => Err(e),
                (_, Err(e)) => Err(e),
            }
        },
        Term::True => {
            proof {
                reveal_strlit("True");
            }
            let r = String::from_str("True");
            assert(r@ =~= seq!['T', 'r', 'u', 'e']);
            Ok(r)
        },
        Term::False => {
            proof {
                reveal_strlit("False");
            }
            let r = String::from_str("False");
            assert(r@ =~= seq!['F', 'a', 'l', 's', 'e']);
            Ok(r)
        },
        Term::If(t1, t2, t3) => {
            let s1 = render_term(ctx, t1);
            let s2 = render_term(ctx, t2);
            let s3 = render_term(ctx, t3);
            match (s1, s2, s3) {
                (Ok(s1), Ok(s2), Ok(s3)) => {
                    proof {
                        reveal_strlit("If ");
                        reveal_strlit(" then ");
                        reveal_strlit(" else ");
                    }
                    let mut r = String::from_str("If ");
                    r.append(s1.as_str());
                    r.append(" then ");
                    r.append(s2.as_str());
                    r.append(" else ");
                    r.append(s3.as_str());
                    assert(r@ =~= seq!['I', 'f', ' '] + s1@ + seq![' ', 't', 'h', 'e', 'n', ' ']
                        + s2@ + seq![' ', 'e', 'l', 's', 'e', ' '] + s3@);
                    Ok(r)
                },
                (Err(e), _, _) => Err(e),
                (_, Err(e), _) => Err(e),
                (_, _, Err(e)) => Err(e),
            }
        },
    }
}

} // verus!

use vstd::prelude::*;
use crate::eval::step;
use crate::shift::subst_top;
use crate::shift::{shift_from, subst_from, wrap_add};
use crate::syntax::{is_value, Binding, Term, Ty};
use crate::typing::{typing, TypeError};

verus! {

/// Progress: a closed well-typed term is a value or takes a step; it is never stuck.
pub proof fn lemma_progress(t: Term)
    requires
        typing(Seq::<(String, Binding)>::empty(), t) is Ok,
    ensures
        is_value(t) || step(t) is Ok,
    decreases t,
{
    let ctx = Seq::<(String, Binding)>::empty();
    match t {
        Term::App(t1, t2) => {
            lemma_progress(*t1);
            lemma_progress(*t2);
            if is_value(*t1) && typing(ctx, *t1) is Ok {
                assert(*t1 is Abs);
            }
        },
        Term::If(t1, _, _) => {
            lemma_progress(*t1);
            if is_value(*t1) {
                assert(*t1 is True || *t1 is False);
            }
        },
        _ => {},
    }
}

/// The deepest nesting of binders in `t`.
pub open spec fn depth(t: Term) -> nat
    decreases t,
{
    match t {
        Term::Abs(_, _, b) => 1 + depth(*b),
        Term::App(t1, t2) => vstd::math::max(depth(*t1) as int, depth(*t2) as int) as nat,
        Term::If(t1, t2, t3) => vstd::math::max(
            depth(*t1) as int,
            vstd::math::max(depth(*t2) as int, depth(*t3) as int),
        ) as nat,
        _ => 0,
    }
}

/// Every free variable of `t` is below `b`.
pub open spec fn scoped(b: int, t: Term) -> bool
    decreases t,
{
    match t {
        Term::Var(x, _) => x < b,
        Term::Abs(_, _, body) => scoped(b + 1, *body),
        Term::App(t1, t2) => scoped(b, *t1) && scoped(b, *t2),
        Term::True | Term::False => true,
        Term::If(t1, t2, t3) => scoped(b, *t1) && scoped(b, *t2) && scoped(b, *t3),
    }
}

/// Variable `k` occurs free in `t`.
pub open spec fn free_at(k: int, t: Term) -> bool
    decreases t,
{
    match t {
        Term::Var(x, _) => x == k,
        Term::Abs(_, _, body) => free_at(k + 1, *body),
        Term::App(t1, t2) => free_at(k, *t1) || free_at(k, *t2),
        Term::True | Term::False => false,
        Term::If(t1, t2, t3) => free_at(k, *t1) || free_at(k, *t2) || free_at(k, *t3),
    }
}

proof fn lemma_depth_shift(d: int, c: int, t: Term)
    ensures
        depth(shift_from(d, c, t)) == depth(t),
    decreases t,
{
    match t {
        Term::Abs(_, _, b) => lemma_depth_shift(d, c + 1, *b),
        Term::App(t1, t2) => {
            lemma_depth_shift(d, c, *t1);
            lemma_depth_shift(d, c, *t2);
        },
        Term::If(t1, t2, t3) => {
            lemma_depth_shift(d, c, *t1);
            lemma_depth_shift(d, c, *t2);
            lemma_depth_shift(d, c, *t3);
        },
        _ => {},
    }
}

proof fn lemma_typed_scoped(g: Seq<(String, Binding)>, t: Term)
    requires
        typing(g, t) is Ok,
    ensures
        scoped(g.len() as int, t),
    decreases t,
{
    match t {
        Term::Abs(x, ty, b) => lemma_typed_scoped(seq![(x, Binding::VarBind(ty))] + g, *b),
        Term::App(t1, t2) => {
            lemma_typed_scoped(g, *t1);
            lemma_typed_scoped(g, *t2);
        },
        Term::If(t1, t2, t3) => {
            lemma_typed_scoped(g, *t1);
            lemma_typed_scoped(g, *t2);
            lemma_typed_scoped(g, *t3);
        },
        _ => {},
    }
}

/// Weakening: slots inserted at position `c` leave the type of `t`, shifted past
/// them, unchanged.
proof fn lemma_weaken(g: Seq<(String, Binding)>, c: int, delta: Seq<(String, Binding)>, t: Term)
    requires
        typing(g, t) is Ok,
        0 <= c <= g.len(),
        g.len() + delta.len() + depth(t) <= usize::MAX + 1,
    ensures
        typing(g.subrange(0, c) + delta + g.subrange(c, g.len() as int), shift_from(
            delta.len() as int,
            c,
            t,
        )) == typing(g, t),
    decreases t,
{
    let g2 = g.subrange(0, c) + delta + g.subrange(c, g.len() as int);
    match t {
        Term::Var(x, _) => {
            if x >= c {
                assert(g2[x + delta.len()] == g[x as int]);
            } else {
                assert(g2[x as int] == g[x as int]);
            }
        },
        Term::Abs(x, ty, b) => {
            let slot = (x, Binding::VarBind(ty));
            let g1 = seq![slot] + g;
            lemma_weaken(g1, c + 1, delta, *b);
            assert(g1.subrange(0, c + 1) + delta + g1.subrange(c + 1, g1.len() as int) =~= seq![slot]
                + g2);
        },
        Term::App(t1, t2) => {
            lemma_weaken(g, c, delta, *t1);
            lemma_weaken(g, c, delta, *t2);
        },
        Term::If(t1, t2, t3) => {
            lemma_weaken(g, c, delta, *t1);
            lemma_weaken(g, c, delta, *t2);
            lemma_weaken(g, c, delta, *t3);
        },
        _ => {},
    }
}

/// Substitution keeps types: `s` of type `S` in `g0` replaces variable `j`, whose
/// slot holds `S`, in a term typed under `dl` binders more.
proof fn lemma_subst_typing(
    g0: Seq<(String, Binding)>,
    dl: Seq<(String, Binding)>,
    j: int,
    s: Term,
    t: Term,
)
    requires
        typing(dl + g0, t) is Ok,
        0 <= j < g0.len(),
        typing(g0, s) is Ok,
        g0[j].1 == Binding::VarBind(typing(g0, s)->Ok_0),
        g0.len() + dl.len() + depth(t) + depth(s) <= usize::MAX + 1,
    ensures
        typing(dl + g0, subst_from(j, s, dl.len() as int, t)) == typing(dl + g0, t),
    decreases t,
{
    let g = dl + g0;
    let c = dl.len() as int;
    match t {
        Term::Var(x, _) => {
            if x == j + c {
                lemma_weaken(g0, 0, dl, s);
                assert(g0.subrange(0, 0) + dl + g0.subrange(0, g0.len() as int) =~= g);
                assert(g[x as int] == g0[j]);
            }
        },
        Term::Abs(x, ty, b) => {
            let slot = (x, Binding::VarBind(ty));
            assert(seq![slot] + dl + g0 =~= seq![slot] + g);
            lemma_subst_typing(g0, seq![slot] + dl, j, s, *b);
        },
        Term::App(t1, t2) => {
            lemma_subst_typing(g0, dl, j, s, *t1);
            lemma_subst_typing(g0, dl, j, s, *t2);
        },
        Term::If(t1, t2, t3) => {
            lemma_subst_typing(g0, dl, j, s, *t1);
            lemma_subst_typing(g0, dl, j, s, *t2);
            lemma_subst_typing(g0, dl, j, s, *t3);
        },
        _ => {},
    }
}

/// Removing slot `ga.len()` leaves the type of a term in which that variable is
/// not free, once the term is shifted down past it.
proof fn lemma_unshift_typing(
    ga: Seq<(String, Binding)>,
    slot: (String, Binding),
    gb: Seq<(String, Binding)>,
    t: Term,
)
    requires
        typing(ga + seq![slot] + gb, t) is Ok,
        !free_at(ga.len() as int, t),
    ensures
        typing(ga + gb, shift_from(-1, ga.len() as int, t)) == typing(ga + seq![slot] + gb, t),
    decreases t,
{
    let g = ga + seq![slot] + gb;
    let c = ga.len() as int;
    match t {
        Term::Var(x, _) => {
            if x > c {
                assert((ga + gb)[x - 1] == g[x as int]);
            } else {
                assert((ga + gb)[x as int] == g[x as int]);
            }
        },
        Term::Abs(x, ty, b) => {
            let s0 = (x, Binding::VarBind(ty));
            assert(seq![s0] + ga + seq![slot] + gb =~= seq![s0] + g);
            assert(seq![s0] + ga + gb =~= seq![s0] + (ga + gb));
            lemma_unshift_typing(seq![s0] + ga, slot, gb, *b);
        },
        Term::App(t1, t2) => {
            lemma_unshift_typing(ga, slot, gb, *t1);
            lemma_unshift_typing(ga, slot, gb, *t2);
        },
        Term::If(t1, t2, t3) => {
            lemma_unshift_typing(ga, slot, gb, *t1);
            lemma_unshift_typing(ga, slot, gb, *t2);
            lemma_unshift_typing(ga, slot, gb, *t3);
        },
        _ => {},
    }
}

/// After a shift by `d >= 1` at cutoff `c`, variable `c` is not free.
proof fn lemma_shift_vacates(b: int, d: int, c: int, t: Term)
    requires
        d >= 1,
        c >= 0,
        scoped(b + c, t),
        b + c + d + depth(t) <= usize::MAX + 1,
    ensures
        !free_at(c, shift_from(d, c, t)),
    decreases t,
{
    match t {
        Term::Abs(_, _, body) => lemma_shift_vacates(b, d, c + 1, *body),
        Term::App(t1, t2) => {
            lemma_shift_vacates(b, d, c, *t1);
            lemma_shift_vacates(b, d, c, *t2);
        },
        Term::If(t1, t2, t3) => {
            lemma_shift_vacates(b, d, c, *t1);
            lemma_shift_vacates(b, d, c, *t2);
            lemma_shift_vacates(b, d, c, *t3);
        },
        _ => {},
    }
}

/// A variable `k` not free in `t` becomes `k + d`, not free after the shift.
proof fn lemma_shift_not_free(b: int, k: int, d: int, c: int, t: Term)
    requires
        d >= 0,
        0 <= c <= k,
        !free_at(k, t),
        scoped(b + c, t),
        b + c + d + depth(t) <= usize::MAX + 1,
    ensures
        !free_at(k + d, shift_from(d, c, t)),
    decreases t,
{
    match t {
        Term::Abs(_, _, body) => lemma_shift_not_free(b, k + 1, d, c + 1, *body),
        Term::App(t1, t2) => {
            lemma_shift_not_free(b, k, d, c, *t1);
            lemma_shift_not_free(b, k, d, c, *t2);
        },
        Term::If(t1, t2, t3) => {
            lemma_shift_not_free(b, k, d, c, *t1);
            lemma_shift_not_free(b, k, d, c, *t2);
            lemma_shift_not_free(b, k, d, c, *t3);
        },
        _ => {},
    }
}

/// Substituting a term without free variable 0 for variable 0 leaves it not free.
proof fn lemma_subst_clears(b: int, s: Term, c: int, t: Term)
    requires
        c >= 0,
        !free_at(0, s),
        scoped(b, s),
        b + c + depth(t) + depth(s) <= usize::MAX + 1,
    ensures
        !free_at(c, subst_from(0, s, c, t)),
    decreases t,
{
    match t {
        Term::Var(x, _) => {
            if x == c {
                lemma_shift_not_free(b, 0, c, 0, s);
            }
        },
        Term::Abs(_, _, body) => lemma_subst_clears(b, s, c + 1, *body),
        Term::App(t1, t2) => {
            lemma_subst_clears(b, s, c, *t1);
            lemma_subst_clears(b, s, c, *t2);
        },
        Term::If(t1, t2, t3) => {
            lemma_subst_clears(b, s, c, *t1);
            lemma_subst_clears(b, s, c, *t2);
            lemma_subst_clears(b, s, c, *t3);
        },
        _ => {},
    }
}

/// Beta reduction keeps the type of the body.
proof fn lemma_subst_top_typing(g: Seq<(String, Binding)>, x: String, ty: Ty, v: Term, body: Term)
    requires
        typing(g, v) == Ok::<Ty, TypeError>(ty),
        typing(seq![(x, Binding::VarBind(ty))] + g, body) is Ok,
        g.len() + 1 + depth(body) + depth(v) <= usize::MAX + 1,
    ensures
        typing(g, subst_top(v, body)) == typing(seq![(x, Binding::VarBind(ty))] + g, body),
{
    let slot = (x, Binding::VarBind(ty));
    let g1 = seq![slot] + g;
    let empty = Seq::<(String, Binding)>::empty();
    lemma_weaken(g, 0, seq![slot], v);
    assert(g.subrange(0, 0) + seq![slot] + g.subrange(0, g.len() as int) =~= g1);
    let s1 = shift_from(1, 0, v);
    lemma_depth_shift(1, 0, v);
    assert(empty + g1 =~= g1);
    lemma_subst_typing(g1, empty, 0, s1, body);
    lemma_typed_scoped(g, v);
    lemma_shift_vacates(g.len() as int, 1, 0, v);
    lemma_typed_scoped(g1, s1);
    lemma_subst_clears(g1.len() as int, s1, 0, body);
    let t1 = subst_from(0, s1, 0, body);
    assert(empty + seq![slot] + g =~= g1);
    assert(empty + g =~= g);
    lemma_unshift_typing(empty, slot, g, t1);
}

/// Preservation: a step keeps the type of a well-typed term, for a context and
/// binder nesting that leave room in the range of indices.
pub proof fn lemma_preservation(ctx: Seq<(String, Binding)>, t: Term)
    requires
        typing(ctx, t) is Ok,
        step(t) is Ok,
        ctx.len() + 2 * depth(t) <= usize::MAX,
    ensures
        typing(ctx, step(t)->Ok_0) == typing(ctx, t),
    decreases t,
{
    match t {
        Term::App(t1, t2) => {
            if *t1 is Abs && is_value(*t2) {
                if let Term::Abs(x, ty, body) = *t1 {
                    let ext = seq![(x, Binding::VarBind(ty))] + ctx;
                    assert(typing(ctx, *t1) is Ok);
                    assert(typing(ext, *body) is Ok);
                    assert(typing(ctx, *t1)->Ok_0 == Ty::Arrow(
                        Box::new(ty),
                        Box::new(typing(ext, *body)->Ok_0),
                    ));
                    assert(depth(*t1) == 1 + depth(*body));
                    assert(depth(t) >= depth(*t1) && depth(t) >= depth(*t2));
                    lemma_subst_top_typing(ctx, x, ty, *t2, *body);
                }
            } else if is_value(*t1) {
                lemma_preservation(ctx, *t2);
            } else {
                lemma_preservation(ctx, *t1);
            }
        },
        Term::If(t1, _, _) => {
            if !is_value(*t1) {
                lemma_preservation(ctx, *t1);
            }
        },
        _ => {},
    }
}

} // verus!

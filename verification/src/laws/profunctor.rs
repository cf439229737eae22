//! The laws of profunctors, strong and choice profunctors for wrapped functions,
//! stated over the relational contracts of `dimap`, `first`, `second`, `left` and
//! `right` and proved.
//!
//! The pre- and post-processing functions enter as a precondition and a relation,
//! as in the contract of `dimap`; composites of them are formed with
//! [`compose_rel`] and [`then_pre`].

use crate::function::{accepts_pred, always, compose_rel, composes, gives_rel, refines, same_rel, CFn, CFnOnce};
use crate::profunctor::{eval_pre, eval_rel, lens_optic, pairs_getter_setter, Choice, Profunctor, Strong};
use vstd::prelude::*;

verus! {

/// The precondition of "`r1` then a function with precondition `pre2`": `pre1` holds
/// and `pre2` holds of every result `r1` relates to.
pub open spec fn then_pre<X, Y>(pre1: spec_fn(X) -> bool, r1: spec_fn(X, Y) -> bool, pre2: spec_fn(Y) -> bool) -> spec_fn(X) -> bool {
    |x: X| pre1(x) && forall|y: Y| #[trigger] r1(x, y) ==> pre2(y)
}

/// The precondition `pre` on the first component of a pair.
pub open spec fn on_first_pre<A, X>(pre: spec_fn(A) -> bool) -> spec_fn((A, X)) -> bool {
    |s: (A, X)| pre(s.0)
}

/// The relation `r` on the first component of a pair, the second kept.
pub open spec fn on_first<A, B, X>(r: spec_fn(A, B) -> bool) -> spec_fn((A, X), (B, X)) -> bool {
    |s: (A, X), t: (B, X)| r(s.0, t.0) && t.1 == s.1
}

/// The precondition `pre` on the second component of a pair.
pub open spec fn on_second_pre<A, X>(pre: spec_fn(A) -> bool) -> spec_fn((X, A)) -> bool {
    |s: (X, A)| pre(s.1)
}

/// The relation `r` on the second component of a pair, the first kept.
pub open spec fn on_second<A, B, X>(r: spec_fn(A, B) -> bool) -> spec_fn((X, A), (X, B)) -> bool {
    |s: (X, A), t: (X, B)| t.0 == s.0 && r(s.1, t.1)
}

/// The precondition `pre` on `Err` values; `Ok` values always pass.
pub open spec fn on_err_pre<A, X>(pre: spec_fn(A) -> bool) -> spec_fn(Result<X, A>) -> bool {
    |s: Result<X, A>| s matches Err(a) ==> pre(a)
}

/// The relation `r` on `Err` values; `Ok` values pass unchanged.
pub open spec fn on_err<A, B, X>(r: spec_fn(A, B) -> bool) -> spec_fn(Result<X, A>, Result<X, B>) -> bool {
    |s: Result<X, A>, t: Result<X, B>| match s {
        Ok(x) => t == Ok::<X, B>(x),
        Err(a) => t matches Err(b) && r(a, b),
    }
}

/// The precondition `pre` on `Ok` values; `Err` values always pass.
pub open spec fn on_ok_pre<A, X>(pre: spec_fn(A) -> bool) -> spec_fn(Result<A, X>) -> bool {
    |s: Result<A, X>| s matches Ok(a) ==> pre(a)
}

/// The relation `r` on `Ok` values; `Err` values pass unchanged.
pub open spec fn on_ok<A, B, X>(r: spec_fn(A, B) -> bool) -> spec_fn(Result<A, X>, Result<B, X>) -> bool {
    |s: Result<A, X>, t: Result<B, X>| match s {
        Ok(a) => t matches Ok(b) && r(a, b),
        Err(x) => t == Err::<B, X>(x),
    }
}

/// `p` may be called on every result of `f` on `a`, and `g` on every result of `p` there.
pub open spec fn chain_ok<A, B, C, D>(
    p: CFn<B, C>,
    f_pre: spec_fn(A) -> bool,
    f: spec_fn(A, B) -> bool,
    g_pre: spec_fn(C) -> bool,
    a: A,
) -> bool {
    f_pre(a) && forall|b: B| #[trigger] f(a, b) ==> (p.accepts(b) && forall|c: C| #[trigger] p.gives(b, c) ==> g_pre(c))
}

/// `d` may come from `g` applied to a result of `p` applied to a result of `f` on `a`.
pub open spec fn chain_gives<A, B, C, D>(p: CFn<B, C>, f: spec_fn(A, B) -> bool, g: spec_fn(C, D) -> bool, a: A, d: D) -> bool {
    exists|b: B, c: C| #[trigger] f(a, b) && #[trigger] p.gives(b, c) && g(c, d)
}

/// `out` computes `(a, x) -> (g(p(f(a))), x)`.
pub open spec fn first_through<A, B, C, D, X>(
    p: CFn<B, C>,
    f_pre: spec_fn(A) -> bool,
    f: spec_fn(A, B) -> bool,
    g_pre: spec_fn(C) -> bool,
    g: spec_fn(C, D) -> bool,
    out: CFn<(A, X), (D, X)>,
) -> bool {
    &&& forall|a: A, x: X| chain_ok::<A, B, C, D>(p, f_pre, f, g_pre, a) ==> #[trigger] out.accepts((a, x))
    &&& forall|a: A, x: X, r: (D, X)| #[trigger] out.gives((a, x), r) ==> r.1 == x && chain_gives(p, f, g, a, r.0)
}

/// `out` computes `(x, a) -> (x, g(p(f(a))))`.
pub open spec fn second_through<A, B, C, D, X>(
    p: CFn<B, C>,
    f_pre: spec_fn(A) -> bool,
    f: spec_fn(A, B) -> bool,
    g_pre: spec_fn(C) -> bool,
    g: spec_fn(C, D) -> bool,
    out: CFn<(X, A), (X, D)>,
) -> bool {
    &&& forall|x: X, a: A| chain_ok::<A, B, C, D>(p, f_pre, f, g_pre, a) ==> #[trigger] out.accepts((x, a))
    &&& forall|x: X, a: A, r: (X, D)| #[trigger] out.gives((x, a), r) ==> r.0 == x && chain_gives(p, f, g, a, r.1)
}

/// `out` computes `Err(a) -> Err(g(p(f(a))))` and passes `Ok` values on.
pub open spec fn left_through<A, B, C, D, X>(
    p: CFn<B, C>,
    f_pre: spec_fn(A) -> bool,
    f: spec_fn(A, B) -> bool,
    g_pre: spec_fn(C) -> bool,
    g: spec_fn(C, D) -> bool,
    out: CFn<Result<X, A>, Result<X, D>>,
) -> bool {
    &&& forall|x: X| #[trigger] out.accepts(Ok::<X, A>(x))
    &&& forall|a: A| chain_ok::<A, B, C, D>(p, f_pre, f, g_pre, a) ==> #[trigger] out.accepts(Err::<X, A>(a))
    &&& forall|s: Result<X, A>, r: Result<X, D>| #[trigger] out.gives(s, r) ==> match s {
        Ok(x) => r == Ok::<X, D>(x),
        Err(a) => r matches Err(d) && chain_gives(p, f, g, a, d),
    }
}

/// `out` computes `Ok(a) -> Ok(g(p(f(a))))` and passes `Err` values on.
pub open spec fn right_through<A, B, C, D, X>(
    p: CFn<B, C>,
    f_pre: spec_fn(A) -> bool,
    f: spec_fn(A, B) -> bool,
    g_pre: spec_fn(C) -> bool,
    g: spec_fn(C, D) -> bool,
    out: CFn<Result<A, X>, Result<D, X>>,
) -> bool {
    &&& forall|a: A| chain_ok::<A, B, C, D>(p, f_pre, f, g_pre, a) ==> #[trigger] out.accepts(Ok::<A, X>(a))
    &&& forall|x: X| #[trigger] out.accepts(Err::<A, X>(x))
    &&& forall|s: Result<A, X>, r: Result<D, X>| #[trigger] out.gives(s, r) ==> match s {
        Ok(a) => r matches Ok(d) && chain_gives(p, f, g, a, d),
        Err(x) => r == Err::<D, X>(x),
    }
}

/// `dimap` with identities does what the function did.
pub proof fn fn_dimap_identity<B, C>(p: CFn<B, C>, out: CFn<B, C>)
    requires
        <CFn<B, C> as Profunctor<B, C, B, C>>::dimapped(p, always(), same_rel(), always(), same_rel(), out),
    ensures
        refines(p, out),
{
    assert forall|a: B| p.accepts(a) implies #[trigger] out.accepts(a) by {
        assert forall|b: B| #[trigger] same_rel::<B>()(a, b) implies (p.accepts(b) && forall|c: C| #[trigger] p.gives(b, c) ==> always::<C>()(c)) by {
        }
    }
    assert forall|a: B, d: C| #[trigger] out.gives(a, d) implies p.gives(a, d) by {
        let (b, c) = choose|b: B, c: C| #[trigger] same_rel::<B>()(a, b) && #[trigger] p.gives(b, c) && same_rel::<C>()(c, d);
    }
}

/// `dimap(f, g)` after `dimap(h, i)` is `dimap` with "`f` then `h`" and "`i` then `g`".
pub proof fn fn_dimap_composition<X, A, B, C, D, Y>(
    p: CFn<B, C>,
    h_pre: spec_fn(A) -> bool,
    h: spec_fn(A, B) -> bool,
    i_pre: spec_fn(C) -> bool,
    i: spec_fn(C, D) -> bool,
    q: CFn<A, D>,
    f_pre: spec_fn(X) -> bool,
    f: spec_fn(X, A) -> bool,
    g_pre: spec_fn(D) -> bool,
    g: spec_fn(D, Y) -> bool,
    out: CFn<X, Y>,
)
    requires
        <CFn<B, C> as Profunctor<B, C, A, D>>::dimapped(p, h_pre, h, i_pre, i, q),
        <CFn<A, D> as Profunctor<A, D, X, Y>>::dimapped(q, f_pre, f, g_pre, g, out),
    ensures
        <CFn<B, C> as Profunctor<B, C, X, Y>>::dimapped(
            p,
            then_pre(f_pre, f, h_pre),
            compose_rel(f, h),
            then_pre(i_pre, i, g_pre),
            compose_rel(i, g),
            out,
        ),
{
    let fh_pre = then_pre(f_pre, f, h_pre);
    let fh = compose_rel(f, h);
    let ig_pre = then_pre(i_pre, i, g_pre);
    let ig = compose_rel(i, g);
    assert forall|x: X|
        fh_pre(x) && (forall|b: B| #[trigger] fh(x, b) ==> (p.accepts(b) && forall|c: C| #[trigger] p.gives(b, c) ==> ig_pre(c)))
            implies #[trigger] out.accepts(x) by {
        assert forall|a: A| #[trigger] f(x, a) implies (q.accepts(a) && forall|d: D| #[trigger] q.gives(a, d) ==> g_pre(d)) by {
            assert(h_pre(a));
            assert forall|b: B| #[trigger] h(a, b) implies (p.accepts(b) && forall|c: C| #[trigger] p.gives(b, c) ==> i_pre(c)) by {
                assert(fh(x, b));
                assert forall|c: C| #[trigger] p.gives(b, c) implies i_pre(c) by {
                    assert(ig_pre(c));
                }
            }
            assert(q.accepts(a));
            assert forall|d: D| #[trigger] q.gives(a, d) implies g_pre(d) by {
                let (b, c) = choose|b: B, c: C| #[trigger] h(a, b) && #[trigger] p.gives(b, c) && i(c, d);
                assert(fh(x, b));
                assert(ig_pre(c));
            }
        }
    }
    assert forall|x: X, y: Y| #[trigger] out.gives(x, y) implies exists|b: B, c: C| #[trigger] fh(x, b) && #[trigger] p.gives(b, c) && ig(c, y) by {
        let (a, d) = choose|a: A, d: D| #[trigger] f(x, a) && #[trigger] q.gives(a, d) && g(d, y);
        let (b, c) = choose|b: B, c: C| #[trigger] h(a, b) && #[trigger] p.gives(b, c) && i(c, d);
        assert(fh(x, b));
        assert(ig(c, y));
    }
}

/// Adapting to the first component and then pre- and post-processing that component
/// is pre- and post-processing and then adapting: both compute `(a, x) -> (g(p(f(a))), x)`.
pub proof fn fn_strong_first_dimap<A, B, C, D, X>(
    p: CFn<B, C>,
    f_pre: spec_fn(A) -> bool,
    f: spec_fn(A, B) -> bool,
    g_pre: spec_fn(C) -> bool,
    g: spec_fn(C, D) -> bool,
    pf: CFn<(B, X), (C, X)>,
    lhs: CFn<(A, X), (D, X)>,
    q: CFn<A, D>,
    rhs: CFn<(A, X), (D, X)>,
)
    requires
        <CFn<B, C> as Strong<B, C, X>>::firsted(p, pf),
        <CFn<(B, X), (C, X)> as Profunctor<(B, X), (C, X), (A, X), (D, X)>>::dimapped(
            pf,
            on_first_pre(f_pre),
            on_first(f),
            on_first_pre(g_pre),
            on_first(g),
            lhs,
        ),
        <CFn<B, C> as Profunctor<B, C, A, D>>::dimapped(p, f_pre, f, g_pre, g, q),
        <CFn<A, D> as Strong<A, D, X>>::firsted(q, rhs),
    ensures
        first_through(p, f_pre, f, g_pre, g, lhs),
        first_through(p, f_pre, f, g_pre, g, rhs),
{
    let ff_pre = on_first_pre::<A, X>(f_pre);
    let ff = on_first::<A, B, X>(f);
    let gg_pre = on_first_pre::<C, X>(g_pre);
    let gg = on_first::<C, D, X>(g);
    assert forall|a: A, x: X| chain_ok::<A, B, C, D>(p, f_pre, f, g_pre, a) implies #[trigger] lhs.accepts((a, x)) by {
        assert forall|t: (B, X)| #[trigger] ff((a, x), t) implies (pf.accepts(t) && forall|u: (C, X)| #[trigger] pf.gives(t, u) ==> gg_pre(u)) by {
            assert(t == (t.0, t.1));
            assert(f(a, t.0));
            assert(pf.accepts((t.0, t.1)));
            assert forall|u: (C, X)| #[trigger] pf.gives(t, u) implies gg_pre(u) by {
                assert(pf.gives((t.0, t.1), u));
            }
        }
        assert(ff_pre((a, x)));
    }
    assert forall|a: A, x: X, r: (D, X)| #[trigger] lhs.gives((a, x), r) implies r.1 == x && chain_gives(p, f, g, a, r.0) by {
        let (t, u) = choose|t: (B, X), u: (C, X)| #[trigger] ff((a, x), t) && #[trigger] pf.gives(t, u) && gg(u, r);
        assert(t == (t.0, t.1));
        assert(pf.gives((t.0, t.1), u));
        assert(f(a, t.0) && p.gives(t.0, u.0) && g(u.0, r.0));
    }
    assert forall|a: A, x: X| chain_ok::<A, B, C, D>(p, f_pre, f, g_pre, a) implies #[trigger] rhs.accepts((a, x)) by {
        assert(q.accepts(a));
    }
    assert forall|a: A, x: X, r: (D, X)| #[trigger] rhs.gives((a, x), r) implies r.1 == x && chain_gives(p, f, g, a, r.0) by {
        assert(q.gives(a, r.0));
    }
}

/// Adapting to the second component and then pre- and post-processing that component
/// is pre- and post-processing and then adapting: both compute `(x, a) -> (x, g(p(f(a))))`.
pub proof fn fn_strong_second_dimap<A, B, C, D, X>(
    p: CFn<B, C>,
    f_pre: spec_fn(A) -> bool,
    f: spec_fn(A, B) -> bool,
    g_pre: spec_fn(C) -> bool,
    g: spec_fn(C, D) -> bool,
    ps: CFn<(X, B), (X, C)>,
    lhs: CFn<(X, A), (X, D)>,
    q: CFn<A, D>,
    rhs: CFn<(X, A), (X, D)>,
)
    requires
        <CFn<B, C> as Strong<B, C, X>>::seconded(p, ps),
        <CFn<(X, B), (X, C)> as Profunctor<(X, B), (X, C), (X, A), (X, D)>>::dimapped(
            ps,
            on_second_pre(f_pre),
            on_second(f),
            on_second_pre(g_pre),
            on_second(g),
            lhs,
        ),
        <CFn<B, C> as Profunctor<B, C, A, D>>::dimapped(p, f_pre, f, g_pre, g, q),
        <CFn<A, D> as Strong<A, D, X>>::seconded(q, rhs),
    ensures
        second_through(p, f_pre, f, g_pre, g, lhs),
        second_through(p, f_pre, f, g_pre, g, rhs),
{
    let ff_pre = on_second_pre::<A, X>(f_pre);
    let ff = on_second::<A, B, X>(f);
    let gg_pre = on_second_pre::<C, X>(g_pre);
    let gg = on_second::<C, D, X>(g);
    assert forall|x: X, a: A| chain_ok::<A, B, C, D>(p, f_pre, f, g_pre, a) implies #[trigger] lhs.accepts((x, a)) by {
        assert forall|t: (X, B)| #[trigger] ff((x, a), t) implies (ps.accepts(t) && forall|u: (X, C)| #[trigger] ps.gives(t, u) ==> gg_pre(u)) by {
            assert(t == (t.0, t.1));
            assert(f(a, t.1));
            assert(ps.accepts((t.0, t.1)));
            assert forall|u: (X, C)| #[trigger] ps.gives(t, u) implies gg_pre(u) by {
                assert(ps.gives((t.0, t.1), u));
            }
        }
        assert(ff_pre((x, a)));
    }
    assert forall|x: X, a: A, r: (X, D)| #[trigger] lhs.gives((x, a), r) implies r.0 == x && chain_gives(p, f, g, a, r.1) by {
        let (t, u) = choose|t: (X, B), u: (X, C)| #[trigger] ff((x, a), t) && #[trigger] ps.gives(t, u) && gg(u, r);
        assert(t == (t.0, t.1));
        assert(ps.gives((t.0, t.1), u));
        assert(f(a, t.1) && p.gives(t.1, u.1) && g(u.1, r.1));
    }
    assert forall|x: X, a: A| chain_ok::<A, B, C, D>(p, f_pre, f, g_pre, a) implies #[trigger] rhs.accepts((x, a)) by {
        assert(q.accepts(a));
    }
    assert forall|x: X, a: A, r: (X, D)| #[trigger] rhs.gives((x, a), r) implies r.0 == x && chain_gives(p, f, g, a, r.1) by {
        assert(q.gives(a, r.1));
    }
}

/// Re-nests `((a, x), y)` as `(a, (x, y))`.
pub open spec fn assoc_rel<A, X, Y>() -> spec_fn(((A, X), Y), (A, (X, Y))) -> bool {
    |s: ((A, X), Y), t: (A, (X, Y))| t == (s.0.0, (s.0.1, s.1))
}

/// Re-nests `(b, (x, y))` as `((b, x), y)`.
pub open spec fn unassoc_rel<B, X, Y>() -> spec_fn((B, (X, Y)), ((B, X), Y)) -> bool {
    |s: (B, (X, Y)), t: ((B, X), Y)| t == ((s.0, s.1.0), s.1.1)
}

/// `out` computes `((a, x), y) -> ((p(a), x), y)`.
pub open spec fn first_first_through<A, B, X, Y>(p: CFn<A, B>, out: CFn<((A, X), Y), ((B, X), Y)>) -> bool {
    &&& forall|a: A, x: X, y: Y| p.accepts(a) ==> #[trigger] out.accepts(((a, x), y))
    &&& forall|a: A, x: X, y: Y, r: ((B, X), Y)| #[trigger] out.gives(((a, x), y), r) ==> p.gives(a, r.0.0) && r.0.1 == x && r.1 == y
}

/// Adapting to the first component twice is adapting once to the first component of
/// the re-nested pair: both compute `((a, x), y) -> ((p(a), x), y)`.
pub proof fn fn_strong_first_associativity<A, B, X, Y>(
    p: CFn<A, B>,
    p1: CFn<(A, X), (B, X)>,
    lhs: CFn<((A, X), Y), ((B, X), Y)>,
    p2: CFn<(A, (X, Y)), (B, (X, Y))>,
    rhs: CFn<((A, X), Y), ((B, X), Y)>,
)
    requires
        <CFn<A, B> as Strong<A, B, X>>::firsted(p, p1),
        <CFn<(A, X), (B, X)> as Strong<(A, X), (B, X), Y>>::firsted(p1, lhs),
        <CFn<A, B> as Strong<A, B, (X, Y)>>::firsted(p, p2),
        <CFn<(A, (X, Y)), (B, (X, Y))> as Profunctor<(A, (X, Y)), (B, (X, Y)), ((A, X), Y), ((B, X), Y)>>::dimapped(
            p2,
            always(),
            assoc_rel(),
            always(),
            unassoc_rel(),
            rhs,
        ),
    ensures
        first_first_through(p, lhs),
        first_first_through(p, rhs),
{
    assert forall|a: A, x: X, y: Y| p.accepts(a) implies #[trigger] lhs.accepts(((a, x), y)) by {
        assert(p1.accepts((a, x)));
    }
    assert forall|a: A, x: X, y: Y, r: ((B, X), Y)| #[trigger] lhs.gives(((a, x), y), r) implies p.gives(a, r.0.0) && r.0.1 == x && r.1 == y by {
        assert(p1.gives((a, x), r.0));
    }
    let ar = assoc_rel::<A, X, Y>();
    let ur = unassoc_rel::<B, X, Y>();
    assert forall|a: A, x: X, y: Y| p.accepts(a) implies #[trigger] rhs.accepts(((a, x), y)) by {
        assert forall|t: (A, (X, Y))| #[trigger] ar(((a, x), y), t) implies (p2.accepts(t) && forall|u: (B, (X, Y))| #[trigger] p2.gives(t, u) ==> always::<(B, (X, Y))>()(u)) by {
            assert(t == (a, (x, y)));
            assert(p2.accepts((a, (x, y))));
        }
        assert(always::<((A, X), Y)>()(((a, x), y)));
    }
    assert forall|a: A, x: X, y: Y, r: ((B, X), Y)| #[trigger] rhs.gives(((a, x), y), r) implies p.gives(a, r.0.0) && r.0.1 == x && r.1 == y by {
        let (t, u) = choose|t: (A, (X, Y)), u: (B, (X, Y))| #[trigger] ar(((a, x), y), t) && #[trigger] p2.gives(t, u) && ur(u, r);
        assert(t == (a, (x, y)));
        assert(p2.gives((a, (x, y)), u));
    }
}

/// Adapting to `Err` values and then pre- and post-processing them is pre- and
/// post-processing and then adapting: both compute `Err(a) -> Err(g(p(f(a))))` and
/// pass `Ok` values on.
pub proof fn fn_choice_left_dimap<A, B, C, D, X>(
    p: CFn<B, C>,
    f_pre: spec_fn(A) -> bool,
    f: spec_fn(A, B) -> bool,
    g_pre: spec_fn(C) -> bool,
    g: spec_fn(C, D) -> bool,
    pl: CFn<Result<X, B>, Result<X, C>>,
    lhs: CFn<Result<X, A>, Result<X, D>>,
    q: CFn<A, D>,
    rhs: CFn<Result<X, A>, Result<X, D>>,
)
    requires
        <CFn<B, C> as Choice<B, C, X>>::lefted(p, pl),
        <CFn<Result<X, B>, Result<X, C>> as Profunctor<Result<X, B>, Result<X, C>, Result<X, A>, Result<X, D>>>::dimapped(
            pl,
            on_err_pre(f_pre),
            on_err(f),
            on_err_pre(g_pre),
            on_err(g),
            lhs,
        ),
        <CFn<B, C> as Profunctor<B, C, A, D>>::dimapped(p, f_pre, f, g_pre, g, q),
        <CFn<A, D> as Choice<A, D, X>>::lefted(q, rhs),
    ensures
        left_through(p, f_pre, f, g_pre, g, lhs),
        left_through(p, f_pre, f, g_pre, g, rhs),
{
    let ff_pre = on_err_pre::<A, X>(f_pre);
    let ff = on_err::<A, B, X>(f);
    let gg_pre = on_err_pre::<C, X>(g_pre);
    let gg = on_err::<C, D, X>(g);
    assert forall|x: X| #[trigger] lhs.accepts(Ok::<X, A>(x)) by {
        assert forall|t: Result<X, B>| #[trigger] ff(Ok::<X, A>(x), t) implies (pl.accepts(t) && forall|u: Result<X, C>| #[trigger] pl.gives(t, u) ==> gg_pre(u)) by {
            assert(t == Ok::<X, B>(x));
            assert forall|u: Result<X, C>| #[trigger] pl.gives(t, u) implies gg_pre(u) by {
                assert(u == Ok::<X, C>(x));
            }
        }
        assert(ff_pre(Ok::<X, A>(x)));
    }
    assert forall|a: A| chain_ok::<A, B, C, D>(p, f_pre, f, g_pre, a) implies #[trigger] lhs.accepts(Err::<X, A>(a)) by {
        assert forall|t: Result<X, B>| #[trigger] ff(Err::<X, A>(a), t) implies (pl.accepts(t) && forall|u: Result<X, C>| #[trigger] pl.gives(t, u) ==> gg_pre(u)) by {
            let b = t->Err_0;
            assert(t == Err::<X, B>(b));
            assert(f(a, b));
            assert forall|u: Result<X, C>| #[trigger] pl.gives(t, u) implies gg_pre(u) by {
                let c = u->Err_0;
                assert(p.gives(b, c));
            }
        }
        assert(ff_pre(Err::<X, A>(a)));
    }
    assert forall|s: Result<X, A>, r: Result<X, D>| #[trigger] lhs.gives(s, r) implies match s {
        Ok(x) => r == Ok::<X, D>(x),
        Err(a) => r matches Err(d) && chain_gives(p, f, g, a, d),
    } by {
        let (t, u) = choose|t: Result<X, B>, u: Result<X, C>| #[trigger] ff(s, t) && #[trigger] pl.gives(t, u) && gg(u, r);
        match s {
            Ok(x) => {
                assert(t == Ok::<X, B>(x));
                assert(u == Ok::<X, C>(x));
            },
            Err(a) => {
                let b = t->Err_0;
                let c = u->Err_0;
                let d = r->Err_0;
                assert(f(a, b) && p.gives(b, c) && g(c, d));
            },
        }
    }
    assert forall|a: A| chain_ok::<A, B, C, D>(p, f_pre, f, g_pre, a) implies #[trigger] rhs.accepts(Err::<X, A>(a)) by {
        assert(q.accepts(a));
    }
    assert forall|s: Result<X, A>, r: Result<X, D>| #[trigger] rhs.gives(s, r) implies match s {
        Ok(x) => r == Ok::<X, D>(x),
        Err(a) => r matches Err(d) && chain_gives(p, f, g, a, d),
    } by {
        if let Err(a) = s {
            assert(q.gives(a, r->Err_0));
        }
    }
}

/// Adapting to `Ok` values and then pre- and post-processing them is pre- and
/// post-processing and then adapting: both compute `Ok(a) -> Ok(g(p(f(a))))` and
/// pass `Err` values on.
pub proof fn fn_choice_right_dimap<A, B, C, D, X>(
    p: CFn<B, C>,
    f_pre: spec_fn(A) -> bool,
    f: spec_fn(A, B) -> bool,
    g_pre: spec_fn(C) -> bool,
    g: spec_fn(C, D) -> bool,
    pr: CFn<Result<B, X>, Result<C, X>>,
    lhs: CFn<Result<A, X>, Result<D, X>>,
    q: CFn<A, D>,
    rhs: CFn<Result<A, X>, Result<D, X>>,
)
    requires
        <CFn<B, C> as Choice<B, C, X>>::righted(p, pr),
        <CFn<Result<B, X>, Result<C, X>> as Profunctor<Result<B, X>, Result<C, X>, Result<A, X>, Result<D, X>>>::dimapped(
            pr,
            on_ok_pre(f_pre),
            on_ok(f),
            on_ok_pre(g_pre),
            on_ok(g),
            lhs,
        ),
        <CFn<B, C> as Profunctor<B, C, A, D>>::dimapped(p, f_pre, f, g_pre, g, q),
        <CFn<A, D> as Choice<A, D, X>>::righted(q, rhs),
    ensures
        right_through(p, f_pre, f, g_pre, g, lhs),
        right_through(p, f_pre, f, g_pre, g, rhs),
{
    let ff_pre = on_ok_pre::<A, X>(f_pre);
    let ff = on_ok::<A, B, X>(f);
    let gg_pre = on_ok_pre::<C, X>(g_pre);
    let gg = on_ok::<C, D, X>(g);
    assert forall|x: X| #[trigger] lhs.accepts(Err::<A, X>(x)) by {
        assert forall|t: Result<B, X>| #[trigger] ff(Err::<A, X>(x), t) implies (pr.accepts(t) && forall|u: Result<C, X>| #[trigger] pr.gives(t, u) ==> gg_pre(u)) by {
            assert(t == Err::<B, X>(x));
            assert forall|u: Result<C, X>| #[trigger] pr.gives(t, u) implies gg_pre(u) by {
                assert(u == Err::<C, X>(x));
            }
        }
        assert(ff_pre(Err::<A, X>(x)));
    }
    assert forall|a: A| chain_ok::<A, B, C, D>(p, f_pre, f, g_pre, a) implies #[trigger] lhs.accepts(Ok::<A, X>(a)) by {
        assert forall|t: Result<B, X>| #[trigger] ff(Ok::<A, X>(a), t) implies (pr.accepts(t) && forall|u: Result<C, X>| #[trigger] pr.gives(t, u) ==> gg_pre(u)) by {
            let b = t->Ok_0;
            assert(t == Ok::<B, X>(b));
            assert(f(a, b));
            assert forall|u: Result<C, X>| #[trigger] pr.gives(t, u) implies gg_pre(u) by {
                let c = u->Ok_0;
                assert(p.gives(b, c));
            }
        }
        assert(ff_pre(Ok::<A, X>(a)));
    }
    assert forall|s: Result<A, X>, r: Result<D, X>| #[trigger] lhs.gives(s, r) implies match s {
        Ok(a) => r matches Ok(d) && chain_gives(p, f, g, a, d),
        Err(x) => r == Err::<D, X>(x),
    } by {
        let (t, u) = choose|t: Result<B, X>, u: Result<C, X>| #[trigger] ff(s, t) && #[trigger] pr.gives(t, u) && gg(u, r);
        match s {
            Ok(a) => {
                let b = t->Ok_0;
                let c = u->Ok_0;
                let d = r->Ok_0;
                assert(f(a, b) && p.gives(b, c) && g(c, d));
            },
            Err(x) => {
                assert(t == Err::<B, X>(x));
                assert(u == Err::<C, X>(x));
            },
        }
    }
    assert forall|a: A| chain_ok::<A, B, C, D>(p, f_pre, f, g_pre, a) implies #[trigger] rhs.accepts(Ok::<A, X>(a)) by {
        assert(q.accepts(a));
    }
    assert forall|s: Result<A, X>, r: Result<D, X>| #[trigger] rhs.gives(s, r) implies match s {
        Ok(a) => r matches Ok(d) && chain_gives(p, f, g, a, d),
        Err(x) => r == Err::<D, X>(x),
    } by {
        if let Ok(a) = s {
            assert(q.gives(a, r->Ok_0));
        }
    }
}

/// Modifying through the lens that [`lens_`](crate::profunctor::lens_) builds from
/// `to`, over wrapped functions (`over`): the function `po` that the optic gives for
/// `f` may be called on `s` wherever `to` may, `f` may be called on the part `to`
/// gives, and the rebuilding function on every new part; and it gives the rebuilding
/// function applied to `f` of the part.
pub proof fn lemma_over_lens_to<S, T, A, B>(
    to: CFn<S, (A, CFn<B, T>)>,
    optic: CFnOnce<CFn<A, B>, CFn<S, T>>,
    f: CFn<A, B>,
    po: CFn<S, T>,
)
    requires
        lens_optic::<CFn<S, T>, CFn<(A, CFn<B, T>), (B, CFn<B, T>)>, CFn<A, B>, S, T, A, B>(to, optic),
        optic.gives(f, po),
    ensures
        forall|s: S|
            to.accepts(s) && (forall|x: (A, CFn<B, T>)|
                #[trigger] to.gives(s, x) ==> f.accepts(x.0) && (forall|b: B| #[trigger] f.gives(x.0, b) ==> x.1.accepts(b)))
                ==> #[trigger] po.accepts(s),
        forall|s: S, t: T| #[trigger] po.gives(s, t) ==> exists|x: (A, CFn<B, T>), b: B|
            #[trigger] to.gives(s, x) && #[trigger] f.gives(x.0, b) && x.1.gives(b, t),
{
    let pi = choose|pi: CFn<(A, CFn<B, T>), (B, CFn<B, T>)>|
        #[trigger] <CFn<A, B> as Strong<A, B, CFn<B, T>>>::firsted(f, pi)
            && <CFn<(A, CFn<B, T>), (B, CFn<B, T>)> as Profunctor<(A, CFn<B, T>), (B, CFn<B, T>), S, T>>::dimapped(
            pi, accepts_pred(to), gives_rel(to), eval_pre::<B, T>(), eval_rel::<B, T>(), po);
    assert forall|s: S|
        to.accepts(s) && (forall|x: (A, CFn<B, T>)|
            #[trigger] to.gives(s, x) ==> f.accepts(x.0) && (forall|b: B| #[trigger] f.gives(x.0, b) ==> x.1.accepts(b)))
            implies #[trigger] po.accepts(s) by {
        assert(accepts_pred(to)(s));
        assert forall|x: (A, CFn<B, T>)| #[trigger] gives_rel(to)(s, x) implies (pi.accepts(x) && forall|y: (B, CFn<B, T>)|
            #[trigger] pi.gives(x, y) ==> eval_pre::<B, T>()(y)) by {
            assert(to.gives(s, x));
            assert(pi.accepts((x.0, x.1)));
            assert forall|y: (B, CFn<B, T>)| #[trigger] pi.gives(x, y) implies eval_pre::<B, T>()(y) by {
                assert(pi.gives((x.0, x.1), y));
                assert(f.gives(x.0, y.0) && y.1 == x.1);
            }
        }
    }
    assert forall|s: S, t: T| #[trigger] po.gives(s, t) implies exists|x: (A, CFn<B, T>), b: B|
        #[trigger] to.gives(s, x) && #[trigger] f.gives(x.0, b) && x.1.gives(b, t) by {
        let (x, y) = choose|x: (A, CFn<B, T>), y: (B, CFn<B, T>)|
            #[trigger] gives_rel(to)(s, x) && #[trigger] pi.gives(x, y) && eval_rel::<B, T>()(y, t);
        assert(pi.gives((x.0, x.1), y));
        assert(to.gives(s, x) && f.gives(x.0, y.0) && x.1.gives(y.0, t));
    }
}

/// Set what you get: rebuilding the whole from the part `to` gives leaves it unchanged.
pub open spec fn to_set_get<S, A>(to: CFn<S, (A, CFn<A, S>)>) -> bool {
    forall|s: S, x: (A, CFn<A, S>), t: S| #[trigger] to.gives(s, x) && #[trigger] x.1.gives(x.0, t) ==> t == s
}

/// Get what you set: the part of the whole rebuilt from `b` is `b`.
pub open spec fn to_get_set<S, A>(to: CFn<S, (A, CFn<A, S>)>) -> bool {
    forall|s: S, x: (A, CFn<A, S>), b: A, t: S, y: (A, CFn<A, S>)|
        #![trigger to.gives(s, x), x.1.gives(b, t), to.gives(t, y)]
        to.gives(s, x) && x.1.gives(b, t) && to.gives(t, y) ==> y.0 == b
}

/// Set twice: rebuilding with `b` and then with `b2` may give what rebuilding the
/// original whole with `b2` may give.
pub open spec fn to_set_set<S, A>(to: CFn<S, (A, CFn<A, S>)>) -> bool {
    forall|s: S, x: (A, CFn<A, S>), b: A, t: S, y: (A, CFn<A, S>), b2: A, t2: S|
        #![trigger to.gives(s, x), x.1.gives(b, t), to.gives(t, y), y.1.gives(b2, t2)]
        to.gives(s, x) && x.1.gives(b, t) && to.gives(t, y) && y.1.gives(b2, t2) ==> x.1.gives(b2, t2)
}

/// Lens law "set what you get" through `over`, for the lens `lens_` builds from any
/// `to` that obeys it: modifying with a function that accepts every part and returns
/// it unchanged can be run wherever `to` and its rebuilding functions on the current
/// part can, and gives the whole back.
pub proof fn lens_to_over_identity<S, A>(
    to: CFn<S, (A, CFn<A, S>)>,
    optic: CFnOnce<CFn<A, A>, CFn<S, S>>,
    f: CFn<A, A>,
    po: CFn<S, S>,
)
    requires
        to_set_get(to),
        forall|a: A| #[trigger] f.accepts(a),
        forall|a: A, b: A| #[trigger] f.gives(a, b) ==> b == a,
        lens_optic::<CFn<S, S>, CFn<(A, CFn<A, S>), (A, CFn<A, S>)>, CFn<A, A>, S, S, A, A>(to, optic),
        optic.gives(f, po),
    ensures
        forall|s: S| to.accepts(s) && (forall|x: (A, CFn<A, S>)| #[trigger] to.gives(s, x) ==> x.1.accepts(x.0)) ==> #[trigger] po.accepts(s),
        forall|s: S, t: S| #[trigger] po.gives(s, t) ==> t == s,
{
    lemma_over_lens_to(to, optic, f, po);
    assert forall|s: S| to.accepts(s) && (forall|x: (A, CFn<A, S>)| #[trigger] to.gives(s, x) ==> x.1.accepts(x.0)) implies #[trigger] po.accepts(s) by {
        assert forall|x: (A, CFn<A, S>)| #[trigger] to.gives(s, x) implies f.accepts(x.0) && (forall|b: A| #[trigger] f.gives(x.0, b) ==> x.1.accepts(b)) by {
            assert(x.1.accepts(x.0));
        }
    }
    assert forall|s: S, t: S| #[trigger] po.gives(s, t) implies t == s by {
        let (x, b) = choose|x: (A, CFn<A, S>), b: A| #[trigger] to.gives(s, x) && #[trigger] f.gives(x.0, b) && x.1.gives(b, t);
        assert(b == x.0);
        assert(to.gives(s, x) && x.1.gives(x.0, t));
    }
}

/// Lens law "get what you set" through `over`, for the lens `lens_` builds from any
/// `to` that obeys it: the part of the whole modified with `f` is `f` of the part.
pub proof fn lens_to_over_then_get<S, A>(
    to: CFn<S, (A, CFn<A, S>)>,
    optic: CFnOnce<CFn<A, A>, CFn<S, S>>,
    f: CFn<A, A>,
    po: CFn<S, S>,
    s: S,
    t: S,
    y: (A, CFn<A, S>),
)
    requires
        to_get_set(to),
        lens_optic::<CFn<S, S>, CFn<(A, CFn<A, S>), (A, CFn<A, S>)>, CFn<A, A>, S, S, A, A>(to, optic),
        optic.gives(f, po),
        po.gives(s, t),
        to.gives(t, y),
    ensures
        exists|x: (A, CFn<A, S>)| #[trigger] to.gives(s, x) && f.gives(x.0, y.0),
{
    lemma_over_lens_to(to, optic, f, po);
    let (x, b) = choose|x: (A, CFn<A, S>), b: A| #[trigger] to.gives(s, x) && #[trigger] f.gives(x.0, b) && x.1.gives(b, t);
    assert(to.gives(s, x) && x.1.gives(b, t) && to.gives(t, y));
    assert(y.0 == b);
}

/// The whole `t` may result from modifying `s` with "`p` then `q`" through `to`.
pub open spec fn over_then_gives<S, A>(to: CFn<S, (A, CFn<A, S>)>, p: CFn<A, A>, q: CFn<A, A>, s: S, t: S) -> bool {
    exists|x: (A, CFn<A, S>), b1: A, b2: A|
        #[trigger] to.gives(s, x) && #[trigger] p.gives(x.0, b1) && #[trigger] q.gives(b1, b2) && x.1.gives(b2, t)
}

/// Lens law "set twice" through `over`, for lenses `lens_` builds from any `to` that
/// obeys "get what you set" and "set twice" (the three optics may come from copies
/// of `to` that give only what `to` gives): modifying with `p2` and then with `q2`
/// gives a whole that modifying once with "`p` then `q`" may give, where `p2`, `q2`
/// give only what `p`, `q` give; and every whole that the optic gives for a
/// composite `pq` of `p` and `q` gives is of that form.
pub proof fn lens_to_over_twice<S, A>(
    to: CFn<S, (A, CFn<A, S>)>,
    to2: CFn<S, (A, CFn<A, S>)>,
    to3: CFn<S, (A, CFn<A, S>)>,
    optic1: CFnOnce<CFn<A, A>, CFn<S, S>>,
    optic2: CFnOnce<CFn<A, A>, CFn<S, S>>,
    optic3: CFnOnce<CFn<A, A>, CFn<S, S>>,
    p: CFn<A, A>,
    q: CFn<A, A>,
    pq: CFn<A, A>,
    p2: CFn<A, A>,
    q2: CFn<A, A>,
    po1: CFn<S, S>,
    po2: CFn<S, S>,
    po3: CFn<S, S>,
    s: S,
    t1: S,
    t2: S,
)
    requires
        to_get_set(to),
        to_set_set(to),
        forall|u: S, x: (A, CFn<A, S>)| #[trigger] to2.gives(u, x) ==> to.gives(u, x),
        forall|u: S, x: (A, CFn<A, S>)| #[trigger] to3.gives(u, x) ==> to.gives(u, x),
        forall|a: A, b: A| #[trigger] p2.gives(a, b) ==> p.gives(a, b),
        forall|a: A, b: A| #[trigger] q2.gives(a, b) ==> q.gives(a, b),
        composes(p, q, pq),
        lens_optic::<CFn<S, S>, CFn<(A, CFn<A, S>), (A, CFn<A, S>)>, CFn<A, A>, S, S, A, A>(to, optic1),
        lens_optic::<CFn<S, S>, CFn<(A, CFn<A, S>), (A, CFn<A, S>)>, CFn<A, A>, S, S, A, A>(to2, optic2),
        lens_optic::<CFn<S, S>, CFn<(A, CFn<A, S>), (A, CFn<A, S>)>, CFn<A, A>, S, S, A, A>(to3, optic3),
        optic1.gives(pq, po1),
        optic2.gives(p2, po2),
        optic3.gives(q2, po3),
        po2.gives(s, t1),
        po3.gives(t1, t2),
    ensures
        over_then_gives(to, p, q, s, t2),
        forall|t: S| #[trigger] po1.gives(s, t) ==> over_then_gives(to, p, q, s, t),
{
    lemma_over_lens_to(to2, optic2, p2, po2);
    lemma_over_lens_to(to3, optic3, q2, po3);
    lemma_over_lens_to(to, optic1, pq, po1);
    let (x, b1) = choose|x: (A, CFn<A, S>), b: A| #[trigger] to2.gives(s, x) && #[trigger] p2.gives(x.0, b) && x.1.gives(b, t1);
    let (y, b2) = choose|y: (A, CFn<A, S>), b: A| #[trigger] to3.gives(t1, y) && #[trigger] q2.gives(y.0, b) && y.1.gives(b, t2);
    assert(to.gives(s, x) && p.gives(x.0, b1));
    assert(to.gives(t1, y) && q.gives(y.0, b2));
    assert(to.gives(s, x) && x.1.gives(b1, t1) && to.gives(t1, y));
    assert(y.0 == b1);
    assert(to.gives(s, x) && x.1.gives(b1, t1) && to.gives(t1, y) && y.1.gives(b2, t2));
    assert(x.1.gives(b2, t2));
    assert(to.gives(s, x) && p.gives(x.0, b1) && q.gives(b1, b2) && x.1.gives(b2, t2));
    assert forall|t: S| #[trigger] po1.gives(s, t) implies over_then_gives(to, p, q, s, t) by {
        let (x3, c) = choose|x3: (A, CFn<A, S>), c: A| #[trigger] to.gives(s, x3) && #[trigger] pq.gives(x3.0, c) && x3.1.gives(c, t);
        let m = choose|m: A| #[trigger] p.gives(x3.0, m) && q.gives(m, c);
        assert(to.gives(s, x3) && p.gives(x3.0, m) && q.gives(m, c) && x3.1.gives(c, t));
    }
}

/// Modifying through a lens over wrapped functions (`over`), for the optic that
/// [`lens`](crate::profunctor::lens) builds from the getter `s2a` and the setter
/// `s2b2t` (through `to`, which pairs them): the function `po` that the optic gives
/// for `f` may be called on `s` wherever the getter and the setter
/// may, `f` may be called on the part, and the rebuilding function on the new part;
/// and it gives the rebuilding function applied to `f` of the part.
pub proof fn lemma_over_lens<S, T, A, B>(
    s2a: CFn<S, A>,
    s2b2t: CFn<S, CFn<B, T>>,
    to: CFn<S, (A, CFn<B, T>)>,
    optic: CFnOnce<CFn<A, B>, CFn<S, T>>,
    f: CFn<A, B>,
    po: CFn<S, T>,
)
    requires
        pairs_getter_setter(to, s2a, s2b2t),
        lens_optic::<CFn<S, T>, CFn<(A, CFn<B, T>), (B, CFn<B, T>)>, CFn<A, B>, S, T, A, B>(to, optic),
        optic.gives(f, po),
    ensures
        forall|s: S|
            s2a.accepts(s) && s2b2t.accepts(s) && (forall|a: A, g: CFn<B, T>|
                #[trigger] s2a.gives(s, a) && #[trigger] s2b2t.gives(s, g) ==> f.accepts(a) && (forall|b: B| #[trigger] f.gives(a, b) ==> g.accepts(b)))
                ==> #[trigger] po.accepts(s),
        forall|s: S, t: T| #[trigger] po.gives(s, t) ==> exists|a: A, b: B, g: CFn<B, T>|
            #[trigger] s2a.gives(s, a) && #[trigger] f.gives(a, b) && #[trigger] s2b2t.gives(s, g) && g.gives(b, t),
{
    lemma_over_lens_to(to, optic, f, po);
    assert forall|s: S|
        s2a.accepts(s) && s2b2t.accepts(s) && (forall|a: A, g: CFn<B, T>|
            #[trigger] s2a.gives(s, a) && #[trigger] s2b2t.gives(s, g) ==> f.accepts(a) && (forall|b: B| #[trigger] f.gives(a, b) ==> g.accepts(b)))
            implies #[trigger] po.accepts(s) by {
        assert(to.accepts(s));
        assert forall|x: (A, CFn<B, T>)| #[trigger] to.gives(s, x) implies f.accepts(x.0) && (forall|b: B| #[trigger] f.gives(x.0, b) ==> x.1.accepts(b)) by {
            assert(s2a.gives(s, x.0) && s2b2t.gives(s, x.1));
        }
    }
    assert forall|s: S, t: T| #[trigger] po.gives(s, t) implies exists|a: A, b: B, g: CFn<B, T>|
        #[trigger] s2a.gives(s, a) && #[trigger] f.gives(a, b) && #[trigger] s2b2t.gives(s, g) && g.gives(b, t) by {
        let (x, b) = choose|x: (A, CFn<B, T>), b: B| #[trigger] to.gives(s, x) && #[trigger] f.gives(x.0, b) && x.1.gives(b, t);
        assert(s2a.gives(s, x.0) && f.gives(x.0, b) && s2b2t.gives(s, x.1) && x.1.gives(b, t));
    }
}

/// Getting back what was set: setting the part `b` and then getting gives `b`.
pub open spec fn get_set_lawful<S, A>(s2a: CFn<S, A>, s2b2t: CFn<S, CFn<A, S>>) -> bool {
    forall|s: S, g: CFn<A, S>, b: A, t: S, a: A|
        #[trigger] s2b2t.gives(s, g) && #[trigger] g.gives(b, t) && #[trigger] s2a.gives(t, a) ==> a == b
}

/// Setting what was got leaves the whole unchanged.
pub open spec fn set_get_lawful<S, A>(s2a: CFn<S, A>, s2b2t: CFn<S, CFn<A, S>>) -> bool {
    forall|s: S, a: A, g: CFn<A, S>, t: S| #[trigger] s2a.gives(s, a) && #[trigger] s2b2t.gives(s, g) && #[trigger] g.gives(a, t) ==> t == s
}

/// Lens law "get what you set", through `over`: for a getter and setter such that
/// getting from the result of setting `b` gives `b`, getting from the result of
/// modifying `s` with `f` gives `f` of the part of `s`.
pub proof fn lens_over_then_get<S, A>(
    s2a: CFn<S, A>,
    s2b2t: CFn<S, CFn<A, S>>,
    to: CFn<S, (A, CFn<A, S>)>,
    optic: CFnOnce<CFn<A, A>, CFn<S, S>>,
    f: CFn<A, A>,
    po: CFn<S, S>,
    s: S,
    t: S,
    a2: A,
)
    requires
        get_set_lawful(s2a, s2b2t),
        pairs_getter_setter(to, s2a, s2b2t),
        lens_optic::<CFn<S, S>, CFn<(A, CFn<A, S>), (A, CFn<A, S>)>, CFn<A, A>, S, S, A, A>(to, optic),
        optic.gives(f, po),
        po.gives(s, t),
        s2a.gives(t, a2),
    ensures
        exists|a: A| #[trigger] s2a.gives(s, a) && f.gives(a, a2),
{
    lemma_over_lens(s2a, s2b2t, to, optic, f, po);
    let (a, b, g) = choose|a: A, b: A, g: CFn<A, S>|
        #[trigger] s2a.gives(s, a) && #[trigger] f.gives(a, b) && #[trigger] s2b2t.gives(s, g) && g.gives(b, t);
    assert(s2b2t.gives(s, g) && g.gives(b, t) && s2a.gives(t, a2));
    assert(a2 == b);
}

/// Lens law "set what you get", through `over`: for a getter and setter such that
/// setting the part that was got gives the whole back, modifying with a function
/// that returns its argument gives the whole back.
pub proof fn lens_over_identity<S, A>(
    s2a: CFn<S, A>,
    s2b2t: CFn<S, CFn<A, S>>,
    to: CFn<S, (A, CFn<A, S>)>,
    optic: CFnOnce<CFn<A, A>, CFn<S, S>>,
    f: CFn<A, A>,
    po: CFn<S, S>,
    s: S,
    t: S,
)
    requires
        set_get_lawful(s2a, s2b2t),
        forall|a: A, b: A| #[trigger] f.gives(a, b) ==> b == a,
        pairs_getter_setter(to, s2a, s2b2t),
        lens_optic::<CFn<S, S>, CFn<(A, CFn<A, S>), (A, CFn<A, S>)>, CFn<A, A>, S, S, A, A>(to, optic),
        optic.gives(f, po),
        po.gives(s, t),
    ensures
        t == s,
{
    lemma_over_lens(s2a, s2b2t, to, optic, f, po);
    let (a, b, g) = choose|a: A, b: A, g: CFn<A, S>|
        #[trigger] s2a.gives(s, a) && #[trigger] f.gives(a, b) && #[trigger] s2b2t.gives(s, g) && g.gives(b, t);
    assert(b == a);
}

/// Setting twice is setting the second part: what setting `b1` and then `b2` may give,
/// setting `b2` on the original whole may give.
pub open spec fn set_set_lawful<S, A>(s2b2t: CFn<S, CFn<A, S>>) -> bool {
    forall|s: S, g: CFn<A, S>, b1: A, t1: S, g1: CFn<A, S>, b2: A, t2: S|
        #![trigger s2b2t.gives(s, g), g.gives(b1, t1), s2b2t.gives(t1, g1), g1.gives(b2, t2)]
        s2b2t.gives(s, g) && g.gives(b1, t1) && s2b2t.gives(t1, g1) && g1.gives(b2, t2) ==> g.gives(b2, t2)
}

/// Lens law "set twice", through `over`: for a getter and setter that satisfy "get
/// what you set" and "set twice", modifying with `f` and then with `h` gives what
/// modifying once with `h` after `f` gives.
pub proof fn lens_over_twice<S, A>(
    s2a: CFn<S, A>,
    s2b2t: CFn<S, CFn<A, S>>,
    to: CFn<S, (A, CFn<A, S>)>,
    optic: CFnOnce<CFn<A, A>, CFn<S, S>>,
    f: CFn<A, A>,
    h: CFn<A, A>,
    po1: CFn<S, S>,
    po2: CFn<S, S>,
    s: S,
    t1: S,
    t2: S,
)
    requires
        get_set_lawful(s2a, s2b2t),
        set_set_lawful(s2b2t),
        pairs_getter_setter(to, s2a, s2b2t),
        lens_optic::<CFn<S, S>, CFn<(A, CFn<A, S>), (A, CFn<A, S>)>, CFn<A, A>, S, S, A, A>(to, optic),
        optic.gives(f, po1),
        optic.gives(h, po2),
        po1.gives(s, t1),
        po2.gives(t1, t2),
    ensures
        exists|a: A, b1: A, b2: A, g: CFn<A, S>|
            #[trigger] s2a.gives(s, a) && #[trigger] f.gives(a, b1) && #[trigger] h.gives(b1, b2) && #[trigger] s2b2t.gives(s, g)
                && g.gives(b2, t2),
{
    lemma_over_lens(s2a, s2b2t, to, optic, f, po1);
    lemma_over_lens(s2a, s2b2t, to, optic, h, po2);
    let (a, b1, g) = choose|a: A, b: A, g: CFn<A, S>|
        #[trigger] s2a.gives(s, a) && #[trigger] f.gives(a, b) && #[trigger] s2b2t.gives(s, g) && g.gives(b, t1);
    let (a1, b2, g1) = choose|a: A, b: A, g: CFn<A, S>|
        #[trigger] s2a.gives(t1, a) && #[trigger] h.gives(a, b) && #[trigger] s2b2t.gives(t1, g) && g.gives(b, t2);
    assert(s2b2t.gives(s, g) && g.gives(b1, t1) && s2a.gives(t1, a1));
    assert(a1 == b1);
    assert(s2b2t.gives(s, g) && g.gives(b1, t1) && s2b2t.gives(t1, g1) && g1.gives(b2, t2));
    assert(g.gives(b2, t2));
    assert(s2a.gives(s, a) && f.gives(a, b1) && h.gives(b1, b2) && s2b2t.gives(s, g));
}

} // verus!

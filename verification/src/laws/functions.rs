//! The functor and monad laws for wrapped functions, repeatable and once-callable.

use crate::applicative::Applicative;
use crate::function::{always, compose_rel, refines, same_rel, CFn, CFnOnce};
use crate::functor::Functor;
use crate::kind_based::kind::{CFnKind, CFnOnceKind};
use crate::monad::{fn_bind_gives, fn_bind_ok_at, fn_once_bind_gives, fn_once_bind_ok_at, Bind, Monad};
use super::{bind_after, clone_exact, pure_rel};
use vstd::prelude::*;

verus! {

/// Mapping a relation within equality over a function does what the function did.
pub proof fn fn_map_identity<X, A>(x: CFn<X, A>, out: CFn<X, A>)
    requires
        <CFnKind<X> as Functor<A, A>>::mapped(x, same_rel(), out),
        <CFnKind<X> as Functor<A, A>>::map_runs(x, always(), out),
    ensures
        refines(x, out),
{
    assert forall|r: X, a: A| #[trigger] out.gives(r, a) implies x.gives(r, a) by {
        let a0 = choose|a0: A| x.gives(r, a0) && same_rel::<A>()(a0, a);
    }
}

/// Mapping `p` then `q` over a function is mapping their composite.
pub proof fn fn_map_composition<X, A, B, C>(
    x: CFn<X, A>,
    p: spec_fn(A, B) -> bool,
    q: spec_fn(B, C) -> bool,
    y: CFn<X, B>,
    z: CFn<X, C>,
)
    requires
        <CFnKind<X> as Functor<A, B>>::mapped(x, p, y),
        <CFnKind<X> as Functor<B, C>>::mapped(y, q, z),
    ensures
        <CFnKind<X> as Functor<A, C>>::mapped(x, compose_rel(p, q), z),
{
    assert forall|r: X, c: C| #[trigger] z.gives(r, c) implies exists|a: A| x.gives(r, a) && compose_rel(p, q)(a, c) by {
        let b = choose|b: B| y.gives(r, b) && q(b, c);
        let a = choose|a: A| x.gives(r, a) && p(a, b);
        assert(compose_rel(p, q)(a, c));
    }
}

/// Mapping a relation within equality over a once-callable function does what the
/// function did.
pub proof fn fn_once_map_identity<X, A>(x: CFnOnce<X, A>, out: CFnOnce<X, A>)
    requires
        <CFnOnceKind<X> as Functor<A, A>>::mapped(x, same_rel(), out),
        <CFnOnceKind<X> as Functor<A, A>>::map_runs(x, always(), out),
    ensures
        forall|r: X| x.accepts(r) ==> #[trigger] out.accepts(r),
        forall|r: X, a: A| #[trigger] out.gives(r, a) ==> x.gives(r, a),
{
    assert forall|r: X, a: A| #[trigger] out.gives(r, a) implies x.gives(r, a) by {
        let a0 = choose|a0: A| x.gives(r, a0) && same_rel::<A>()(a0, a);
    }
}

/// Mapping `p` then `q` over a once-callable function is mapping their composite.
pub proof fn fn_once_map_composition<X, A, B, C>(
    x: CFnOnce<X, A>,
    p: spec_fn(A, B) -> bool,
    q: spec_fn(B, C) -> bool,
    y: CFnOnce<X, B>,
    z: CFnOnce<X, C>,
)
    requires
        <CFnOnceKind<X> as Functor<A, B>>::mapped(x, p, y),
        <CFnOnceKind<X> as Functor<B, C>>::mapped(y, q, z),
    ensures
        <CFnOnceKind<X> as Functor<A, C>>::mapped(x, compose_rel(p, q), z),
{
    assert forall|r: X, c: C| #[trigger] z.gives(r, c) implies exists|a: A| x.gives(r, a) && compose_rel(p, q)(a, c) by {
        let b = choose|b: B| y.gives(r, b) && q(b, c);
        let a = choose|a: A| x.gives(r, a) && p(a, b);
        assert(compose_rel(p, q)(a, c));
    }
}

/// Binding a lifted value to a function gives, on each argument, what a function the
/// relation gives for the value gives there.
#[verifier::spinoff_prover]
pub proof fn fn_bind_left_identity<R: Clone + 'static, A: Clone + 'static, B: 'static>(
    a: A,
    rel: spec_fn(A, CFn<R, B>) -> bool,
    out: CFn<R, B>,
)
    requires
        clone_exact::<R>(),
        clone_exact::<A>(),
        bind_after::<CFnKind<R>, A, A, B>(pure_rel::<CFnKind<R>, A>(), rel)(a, out),
    ensures
        forall|r: R| (forall|a2: A, mb: CFn<R, B>| #[trigger] rel(a2, mb) ==> mb.accepts(r)) ==> #[trigger] out.accepts(r),
        forall|r: R, b: B| #[trigger] out.gives(r, b) ==> exists|mb: CFn<R, B>| #[trigger] rel(a, mb) && mb.gives(r, b),
{
    let pa = choose|pa: CFn<R, A>| #[trigger] pure_rel::<CFnKind<R>, A>()(a, pa) && <CFnKind<R> as Bind<A, B>>::bound(pa, rel, out)
        && <CFnKind<R> as Bind<A, B>>::bind_runs(pa, always(), rel, out);
    assert(<CFnKind<R> as Applicative<A>>::is_pure(a, pa));
    assert forall|r: R| (forall|a2: A, mb: CFn<R, B>| #[trigger] rel(a2, mb) ==> mb.accepts(r)) implies #[trigger] out.accepts(r) by {
        assert forall|r1: R, a2: A, mb: CFn<R, B>, r2: R|
            #![trigger pa.gives(r1, a2), rel(a2, mb), cloned(r, r2)]
            cloned(r, r1) && pa.gives(r1, a2) && rel(a2, mb) && cloned(r, r2) implies mb.accepts(r2) by {
            assert(r2 == r);
        }
        assert(fn_bind_ok_at(pa, always(), rel, r));
    }
    assert forall|r: R, b: B| #[trigger] out.gives(r, b) implies exists|mb: CFn<R, B>| #[trigger] rel(a, mb) && mb.gives(r, b) by {
        assert(fn_bind_gives(pa, rel, r, b));
        let (r1, a2, mb, r2) = choose|r1: R, a2: A, mb: CFn<R, B>, r2: R|
            #![trigger pa.gives(r1, a2), rel(a2, mb), mb.gives(r2, b)]
            cloned(r, r1) && pa.gives(r1, a2) && rel(a2, mb) && cloned(r, r2) && mb.gives(r2, b);
        assert(cloned(a, a2));
        assert(a2 == a);
        assert(r2 == r);
    }
}

/// Binding a function to `pure` does what the function did.
#[verifier::spinoff_prover]
pub proof fn fn_bind_right_identity<R: Clone + 'static, A: Clone + 'static>(m: CFn<R, A>, out: CFn<R, A>)
    requires
        clone_exact::<R>(),
        clone_exact::<A>(),
        <CFnKind<R> as Bind<A, A>>::bound(m, pure_rel::<CFnKind<R>, A>(), out),
        <CFnKind<R> as Bind<A, A>>::bind_runs(m, always(), pure_rel::<CFnKind<R>, A>(), out),
    ensures
        refines(m, out),
{
    let pr = pure_rel::<CFnKind<R>, A>();
    assert forall|r: R| m.accepts(r) implies #[trigger] out.accepts(r) by {
        assert forall|r1: R| #[trigger] cloned(r, r1) implies m.accepts(r1) by {
            assert(r1 == r);
        }
        assert forall|r1: R, a: A, mb: CFn<R, A>, r2: R|
            #![trigger m.gives(r1, a), pr(a, mb), cloned(r, r2)]
            cloned(r, r1) && m.gives(r1, a) && pr(a, mb) && cloned(r, r2) implies mb.accepts(r2) by {
            assert(<CFnKind<R> as Applicative<A>>::is_pure(a, mb));
        }
        assert(fn_bind_ok_at(m, always(), pr, r));
    }
    assert forall|r: R, b: A| #[trigger] out.gives(r, b) implies m.gives(r, b) by {
        assert(fn_bind_gives(m, pr, r, b));
        let (r1, a, mb, r2) = choose|r1: R, a: A, mb: CFn<R, A>, r2: R|
            #![trigger m.gives(r1, a), pr(a, mb), mb.gives(r2, b)]
            cloned(r, r1) && m.gives(r1, a) && pr(a, mb) && cloned(r, r2) && mb.gives(r2, b);
        assert(<CFnKind<R> as Applicative<A>>::is_pure(a, mb));
        assert(cloned(a, b));
        assert(b == a && r1 == r);
    }
}

/// Calling `m` on `r`, a function `f` gives for its value, and a function `g` gives
/// for that value, all on `r`, may give `c`.
pub open spec fn fn_chain_gives<R, A, B, C>(
    m: CFn<R, A>,
    f: spec_fn(A, CFn<R, B>) -> bool,
    g: spec_fn(B, CFn<R, C>) -> bool,
    r: R,
    c: C,
) -> bool {
    exists|a: A, mb: CFn<R, B>, b: B, mc: CFn<R, C>|
        #![trigger m.gives(r, a), f(a, mb), mb.gives(r, b), g(b, mc)]
        m.gives(r, a) && f(a, mb) && mb.gives(r, b) && g(b, mc) && mc.gives(r, c)
}

/// `m` and every function `f` or `g` may give can be called on `r`.
pub open spec fn fn_chain_ok<R, A, B, C>(m: CFn<R, A>, f: spec_fn(A, CFn<R, B>) -> bool, g: spec_fn(B, CFn<R, C>) -> bool, r: R) -> bool {
    &&& m.accepts(r)
    &&& forall|a: A, mb: CFn<R, B>| #[trigger] f(a, mb) ==> mb.accepts(r)
    &&& forall|b: B, mc: CFn<R, C>| #[trigger] g(b, mc) ==> mc.accepts(r)
}

/// Binding to `f` and then to `g` is binding to "`f` then bind to `g`": both call `m`,
/// a function `f` gives and a function `g` gives, on the same argument.
#[verifier::spinoff_prover]
pub proof fn fn_bind_associativity<R: Clone + 'static, A: 'static, B: 'static, C: 'static>(
    m: CFn<R, A>,
    f: spec_fn(A, CFn<R, B>) -> bool,
    g: spec_fn(B, CFn<R, C>) -> bool,
    y: CFn<R, B>,
    z: CFn<R, C>,
    w: CFn<R, C>,
)
    requires
        clone_exact::<R>(),
        <CFnKind<R> as Bind<A, B>>::bound(m, f, y),
        <CFnKind<R> as Bind<B, C>>::bound(y, g, z),
        <CFnKind<R> as Bind<A, C>>::bound(m, bind_after::<CFnKind<R>, A, B, C>(f, g), w),
        <CFnKind<R> as Bind<A, B>>::bind_runs(m, always(), f, y),
        <CFnKind<R> as Bind<B, C>>::bind_runs(y, always(), g, z),
        <CFnKind<R> as Bind<A, C>>::bind_runs(m, always(), bind_after::<CFnKind<R>, A, B, C>(f, g), w),
    ensures
        forall|r: R| fn_chain_ok(m, f, g, r) ==> #[trigger] z.accepts(r) && w.accepts(r),
        forall|r: R, c: C| #[trigger] z.gives(r, c) ==> fn_chain_gives(m, f, g, r, c),
        forall|r: R, c: C| #[trigger] w.gives(r, c) ==> fn_chain_gives(m, f, g, r, c),
{
    let h = bind_after::<CFnKind<R>, A, B, C>(f, g);
    assert forall|r: R| fn_chain_ok(m, f, g, r) implies #[trigger] z.accepts(r) && w.accepts(r) by {
        assert forall|r1: R| #[trigger] cloned(r, r1) implies m.accepts(r1) by {
            assert(r1 == r);
        }
        assert forall|r1: R, a: A, mb: CFn<R, B>, r2: R|
            #![trigger m.gives(r1, a), f(a, mb), cloned(r, r2)]
            cloned(r, r1) && m.gives(r1, a) && f(a, mb) && cloned(r, r2) implies mb.accepts(r2) by {
            assert(r2 == r);
        }
        assert(fn_bind_ok_at(m, always(), f, r));
        assert forall|r1: R| #[trigger] cloned(r, r1) implies y.accepts(r1) by {
            assert(r1 == r);
        }
        assert forall|r1: R, b: B, mc: CFn<R, C>, r2: R|
            #![trigger y.gives(r1, b), g(b, mc), cloned(r, r2)]
            cloned(r, r1) && y.gives(r1, b) && g(b, mc) && cloned(r, r2) implies mc.accepts(r2) by {
            assert(r2 == r);
        }
        assert(fn_bind_ok_at(y, always(), g, r));
        assert forall|r1: R, a: A, mc: CFn<R, C>, r2: R|
            #![trigger m.gives(r1, a), h(a, mc), cloned(r, r2)]
            cloned(r, r1) && m.gives(r1, a) && h(a, mc) && cloned(r, r2) implies mc.accepts(r2) by {
            let mb = choose|mb: CFn<R, B>| #[trigger] f(a, mb) && <CFnKind<R> as Bind<B, C>>::bound(mb, g, mc)
                && <CFnKind<R> as Bind<B, C>>::bind_runs(mb, always(), g, mc);
            assert(r2 == r);
            assert forall|r3: R| #[trigger] cloned(r, r3) implies mb.accepts(r3) by {
                assert(r3 == r);
            }
            assert forall|r3: R, b: B, mc2: CFn<R, C>, r4: R|
                #![trigger mb.gives(r3, b), g(b, mc2), cloned(r, r4)]
                cloned(r, r3) && mb.gives(r3, b) && g(b, mc2) && cloned(r, r4) implies mc2.accepts(r4) by {
                assert(r4 == r);
            }
            assert(fn_bind_ok_at(mb, always(), g, r));
        }
        assert(fn_bind_ok_at(m, always(), h, r));
    }
    assert forall|r: R, c: C| #[trigger] z.gives(r, c) implies fn_chain_gives(m, f, g, r, c) by {
        assert(fn_bind_gives(y, g, r, c));
        let (r1, b, mc, r2) = choose|r1: R, b: B, mc: CFn<R, C>, r2: R|
            #![trigger y.gives(r1, b), g(b, mc), mc.gives(r2, c)]
            cloned(r, r1) && y.gives(r1, b) && g(b, mc) && cloned(r, r2) && mc.gives(r2, c);
        assert(r1 == r && r2 == r);
        assert(fn_bind_gives(m, f, r, b));
        let (r3, a, mb, r4) = choose|r3: R, a: A, mb: CFn<R, B>, r4: R|
            #![trigger m.gives(r3, a), f(a, mb), mb.gives(r4, b)]
            cloned(r, r3) && m.gives(r3, a) && f(a, mb) && cloned(r, r4) && mb.gives(r4, b);
        assert(r3 == r && r4 == r);
        assert(m.gives(r, a) && f(a, mb) && mb.gives(r, b) && g(b, mc));
    }
    assert forall|r: R, c: C| #[trigger] w.gives(r, c) implies fn_chain_gives(m, f, g, r, c) by {
        assert(fn_bind_gives(m, h, r, c));
        let (r1, a, mh, r2) = choose|r1: R, a: A, mh: CFn<R, C>, r2: R|
            #![trigger m.gives(r1, a), h(a, mh), mh.gives(r2, c)]
            cloned(r, r1) && m.gives(r1, a) && h(a, mh) && cloned(r, r2) && mh.gives(r2, c);
        assert(r1 == r && r2 == r);
        let mb = choose|mb: CFn<R, B>| #[trigger] f(a, mb) && <CFnKind<R> as Bind<B, C>>::bound(mb, g, mh)
            && <CFnKind<R> as Bind<B, C>>::bind_runs(mb, always(), g, mh);
        assert(fn_bind_gives(mb, g, r, c));
        let (r3, b, mc, r4) = choose|r3: R, b: B, mc: CFn<R, C>, r4: R|
            #![trigger mb.gives(r3, b), g(b, mc), mc.gives(r4, c)]
            cloned(r, r3) && mb.gives(r3, b) && g(b, mc) && cloned(r, r4) && mc.gives(r4, c);
        assert(r3 == r && r4 == r);
        assert(m.gives(r, a) && f(a, mb) && mb.gives(r, b) && g(b, mc));
    }
}

/// Flattening a function whose results are lifted values of `m` does what `m` did.
#[verifier::spinoff_prover]
pub proof fn fn_join_map_pure<R: Clone + 'static, A: Clone + 'static>(m: CFn<R, A>, mm: CFn<R, CFn<R, A>>, out: CFn<R, A>)
    requires
        clone_exact::<R>(),
        clone_exact::<A>(),
        <CFnKind<R> as Functor<A, CFn<R, A>>>::mapped(m, pure_rel::<CFnKind<R>, A>(), mm),
        <CFnKind<R> as Functor<A, CFn<R, A>>>::map_runs(m, always(), mm),
        <CFnKind<R> as Monad<A>>::joined(mm, out),
    ensures
        refines(m, out),
{
    let pr = pure_rel::<CFnKind<R>, A>();
    let sr = same_rel::<CFn<R, A>>();
    assert forall|r: R| m.accepts(r) implies #[trigger] out.accepts(r) by {
        assert forall|r1: R| #[trigger] cloned(r, r1) implies mm.accepts(r1) by {
            assert(r1 == r);
        }
        assert forall|r1: R, ma: CFn<R, A>, mb: CFn<R, A>, r2: R|
            #![trigger mm.gives(r1, ma), sr(ma, mb), cloned(r, r2)]
            cloned(r, r1) && mm.gives(r1, ma) && sr(ma, mb) && cloned(r, r2) implies mb.accepts(r2) by {
            let a = choose|a: A| m.gives(r1, a) && pr(a, ma);
            assert(<CFnKind<R> as Applicative<A>>::is_pure(a, ma));
        }
        assert(fn_bind_ok_at(mm, always(), sr, r));
    }
    assert forall|r: R, b: A| #[trigger] out.gives(r, b) implies m.gives(r, b) by {
        assert(fn_bind_gives(mm, sr, r, b));
        let (r1, ma, mb, r2) = choose|r1: R, ma: CFn<R, A>, mb: CFn<R, A>, r2: R|
            #![trigger mm.gives(r1, ma), sr(ma, mb), mb.gives(r2, b)]
            cloned(r, r1) && mm.gives(r1, ma) && sr(ma, mb) && cloned(r, r2) && mb.gives(r2, b);
        let a = choose|a: A| m.gives(r1, a) && pr(a, ma);
        assert(<CFnKind<R> as Applicative<A>>::is_pure(a, ma));
        assert(mb == ma);
        assert(cloned(a, b));
        assert(b == a && r1 == r);
    }
}

/// Flattening a function that always gives a lift of `x` gives a lift of `x`.
#[verifier::spinoff_prover]
pub proof fn fn_join_pure<R: Clone + 'static, A: Clone + 'static>(x: A, mma: CFn<R, CFn<R, A>>, out: CFn<R, A>)
    requires
        clone_exact::<R>(),
        forall|r: R| #[trigger] mma.accepts(r),
        forall|r: R, ma: CFn<R, A>| #[trigger] mma.gives(r, ma) ==> <CFnKind<R> as Applicative<A>>::is_pure(x, ma),
        <CFnKind<R> as Monad<A>>::joined(mma, out),
    ensures
        <CFnKind<R> as Applicative<A>>::is_pure(x, out),
{
    let sr = same_rel::<CFn<R, A>>();
    assert forall|r: R| #[trigger] out.accepts(r) by {
        assert forall|r1: R, ma: CFn<R, A>, mb: CFn<R, A>, r2: R|
            #![trigger mma.gives(r1, ma), sr(ma, mb), cloned(r, r2)]
            cloned(r, r1) && mma.gives(r1, ma) && sr(ma, mb) && cloned(r, r2) implies mb.accepts(r2) by {
            assert(<CFnKind<R> as Applicative<A>>::is_pure(x, ma));
        }
        assert(fn_bind_ok_at(mma, always(), sr, r));
    }
    assert forall|r: R, t: A| #[trigger] out.gives(r, t) implies cloned(x, t) by {
        assert(fn_bind_gives(mma, sr, r, t));
        let (r1, ma, mb, r2) = choose|r1: R, ma: CFn<R, A>, mb: CFn<R, A>, r2: R|
            #![trigger mma.gives(r1, ma), sr(ma, mb), mb.gives(r2, t)]
            cloned(r, r1) && mma.gives(r1, ma) && sr(ma, mb) && cloned(r, r2) && mb.gives(r2, t);
        assert(<CFnKind<R> as Applicative<A>>::is_pure(x, ma));
        assert(mb == ma);
    }
}

/// Binding a lifted value to a once-callable function gives, on each argument, what a
/// function the relation gives for the value gives there.
#[verifier::spinoff_prover]
pub proof fn fn_once_bind_left_identity<R: Clone + 'static, A: Clone + 'static, B: 'static>(
    a: A,
    rel: spec_fn(A, CFnOnce<R, B>) -> bool,
    out: CFnOnce<R, B>,
)
    requires
        clone_exact::<A>(),
        bind_after::<CFnOnceKind<R>, A, A, B>(pure_rel::<CFnOnceKind<R>, A>(), rel)(a, out),
    ensures
        forall|r: R| (forall|a2: A, mb: CFnOnce<R, B>| #[trigger] rel(a2, mb) ==> mb.accepts(r)) ==> #[trigger] out.accepts(r),
        forall|r: R, b: B| #[trigger] out.gives(r, b) ==> exists|mb: CFnOnce<R, B>| #[trigger] rel(a, mb) && mb.gives(r, b),
{
    let pa = choose|pa: CFnOnce<R, A>| #[trigger] pure_rel::<CFnOnceKind<R>, A>()(a, pa) && <CFnOnceKind<R> as Bind<A, B>>::bound(pa, rel, out)
        && <CFnOnceKind<R> as Bind<A, B>>::bind_runs(pa, always(), rel, out);
    assert(<CFnOnceKind<R> as Applicative<A>>::is_pure(a, pa));
    assert forall|r: R| (forall|a2: A, mb: CFnOnce<R, B>| #[trigger] rel(a2, mb) ==> mb.accepts(r)) implies #[trigger] out.accepts(r) by {
        assert(fn_once_bind_ok_at(pa, always(), rel, r));
    }
    assert forall|r: R, b: B| #[trigger] out.gives(r, b) implies exists|mb: CFnOnce<R, B>| #[trigger] rel(a, mb) && mb.gives(r, b) by {
        assert(fn_once_bind_gives(pa, rel, r, b));
        let (r1, a2, mb) = choose|r1: R, a2: A, mb: CFnOnce<R, B>|
            #![trigger pa.gives(r1, a2), rel(a2, mb), mb.gives(r, b)]
            cloned(r, r1) && pa.gives(r1, a2) && rel(a2, mb) && mb.gives(r, b);
        assert(cloned(a, a2));
        assert(a2 == a);
    }
}

/// Binding a once-callable function to `pure` does what the function did.
#[verifier::spinoff_prover]
pub proof fn fn_once_bind_right_identity<R: Clone + 'static, A: Clone + 'static>(m: CFnOnce<R, A>, out: CFnOnce<R, A>)
    requires
        clone_exact::<R>(),
        clone_exact::<A>(),
        <CFnOnceKind<R> as Bind<A, A>>::bound(m, pure_rel::<CFnOnceKind<R>, A>(), out),
        <CFnOnceKind<R> as Bind<A, A>>::bind_runs(m, always(), pure_rel::<CFnOnceKind<R>, A>(), out),
    ensures
        forall|r: R| m.accepts(r) ==> #[trigger] out.accepts(r),
        forall|r: R, b: A| #[trigger] out.gives(r, b) ==> m.gives(r, b),
{
    let pr = pure_rel::<CFnOnceKind<R>, A>();
    assert forall|r: R| m.accepts(r) implies #[trigger] out.accepts(r) by {
        assert forall|r1: R| #[trigger] cloned(r, r1) implies m.accepts(r1) by {
            assert(r1 == r);
        }
        assert forall|r1: R, a: A, mb: CFnOnce<R, A>|
            #![trigger m.gives(r1, a), pr(a, mb)]
            cloned(r, r1) && m.gives(r1, a) && pr(a, mb) implies mb.accepts(r) by {
            assert(<CFnOnceKind<R> as Applicative<A>>::is_pure(a, mb));
        }
        assert(fn_once_bind_ok_at(m, always(), pr, r));
    }
    assert forall|r: R, b: A| #[trigger] out.gives(r, b) implies m.gives(r, b) by {
        assert(fn_once_bind_gives(m, pr, r, b));
        let (r1, a, mb) = choose|r1: R, a: A, mb: CFnOnce<R, A>|
            #![trigger m.gives(r1, a), pr(a, mb), mb.gives(r, b)]
            cloned(r, r1) && m.gives(r1, a) && pr(a, mb) && mb.gives(r, b);
        assert(<CFnOnceKind<R> as Applicative<A>>::is_pure(a, mb));
        assert(cloned(a, b));
        assert(b == a && r1 == r);
    }
}

/// Calling `m` on `r`, a function `f` gives for its value, and a function `g` gives
/// for that value, all on `r`, may give `c` (once-callable functions).
pub open spec fn fn_once_chain_gives<R, A, B, C>(
    m: CFnOnce<R, A>,
    f: spec_fn(A, CFnOnce<R, B>) -> bool,
    g: spec_fn(B, CFnOnce<R, C>) -> bool,
    r: R,
    c: C,
) -> bool {
    exists|a: A, mb: CFnOnce<R, B>, b: B, mc: CFnOnce<R, C>|
        #![trigger m.gives(r, a), f(a, mb), mb.gives(r, b), g(b, mc)]
        m.gives(r, a) && f(a, mb) && mb.gives(r, b) && g(b, mc) && mc.gives(r, c)
}

/// `m` and every once-callable function `f` or `g` may give can be called on `r`.
pub open spec fn fn_once_chain_ok<R, A, B, C>(
    m: CFnOnce<R, A>,
    f: spec_fn(A, CFnOnce<R, B>) -> bool,
    g: spec_fn(B, CFnOnce<R, C>) -> bool,
    r: R,
) -> bool {
    &&& m.accepts(r)
    &&& forall|a: A, mb: CFnOnce<R, B>| #[trigger] f(a, mb) ==> mb.accepts(r)
    &&& forall|b: B, mc: CFnOnce<R, C>| #[trigger] g(b, mc) ==> mc.accepts(r)
}

/// Binding to `f` and then to `g` is binding to "`f` then bind to `g`" for
/// once-callable functions: both call `m`, a function `f` gives and a function `g`
/// gives, on the same argument.
#[verifier::spinoff_prover]
pub proof fn fn_once_bind_associativity<R: Clone + 'static, A: 'static, B: 'static, C: 'static>(
    m: CFnOnce<R, A>,
    f: spec_fn(A, CFnOnce<R, B>) -> bool,
    g: spec_fn(B, CFnOnce<R, C>) -> bool,
    y: CFnOnce<R, B>,
    z: CFnOnce<R, C>,
    w: CFnOnce<R, C>,
)
    requires
        clone_exact::<R>(),
        <CFnOnceKind<R> as Bind<A, B>>::bound(m, f, y),
        <CFnOnceKind<R> as Bind<B, C>>::bound(y, g, z),
        <CFnOnceKind<R> as Bind<A, C>>::bound(m, bind_after::<CFnOnceKind<R>, A, B, C>(f, g), w),
        <CFnOnceKind<R> as Bind<A, B>>::bind_runs(m, always(), f, y),
        <CFnOnceKind<R> as Bind<B, C>>::bind_runs(y, always(), g, z),
        <CFnOnceKind<R> as Bind<A, C>>::bind_runs(m, always(), bind_after::<CFnOnceKind<R>, A, B, C>(f, g), w),
    ensures
        forall|r: R| fn_once_chain_ok(m, f, g, r) ==> #[trigger] z.accepts(r) && w.accepts(r),
        forall|r: R, c: C| #[trigger] z.gives(r, c) ==> fn_once_chain_gives(m, f, g, r, c),
        forall|r: R, c: C| #[trigger] w.gives(r, c) ==> fn_once_chain_gives(m, f, g, r, c),
{
    let h = bind_after::<CFnOnceKind<R>, A, B, C>(f, g);
    assert forall|r: R| fn_once_chain_ok(m, f, g, r) implies #[trigger] z.accepts(r) && w.accepts(r) by {
        assert forall|r1: R| #[trigger] cloned(r, r1) implies m.accepts(r1) by {
            assert(r1 == r);
        }
        assert(fn_once_bind_ok_at(m, always(), f, r));
        assert forall|r1: R| #[trigger] cloned(r, r1) implies y.accepts(r1) by {
            assert(r1 == r);
        }
        assert(fn_once_bind_ok_at(y, always(), g, r));
        assert forall|r1: R, a: A, mc: CFnOnce<R, C>|
            #![trigger m.gives(r1, a), h(a, mc)]
            cloned(r, r1) && m.gives(r1, a) && h(a, mc) implies mc.accepts(r) by {
            let mb = choose|mb: CFnOnce<R, B>| #[trigger] f(a, mb) && <CFnOnceKind<R> as Bind<B, C>>::bound(mb, g, mc)
                && <CFnOnceKind<R> as Bind<B, C>>::bind_runs(mb, always(), g, mc);
            assert forall|r3: R| #[trigger] cloned(r, r3) implies mb.accepts(r3) by {
                assert(r3 == r);
            }
            assert(fn_once_bind_ok_at(mb, always(), g, r));
        }
        assert(fn_once_bind_ok_at(m, always(), h, r));
    }
    assert forall|r: R, c: C| #[trigger] z.gives(r, c) implies fn_once_chain_gives(m, f, g, r, c) by {
        assert(fn_once_bind_gives(y, g, r, c));
        let (r1, b, mc) = choose|r1: R, b: B, mc: CFnOnce<R, C>|
            #![trigger y.gives(r1, b), g(b, mc), mc.gives(r, c)]
            cloned(r, r1) && y.gives(r1, b) && g(b, mc) && mc.gives(r, c);
        assert(r1 == r);
        assert(fn_once_bind_gives(m, f, r, b));
        let (r3, a, mb) = choose|r3: R, a: A, mb: CFnOnce<R, B>|
            #![trigger m.gives(r3, a), f(a, mb), mb.gives(r, b)]
            cloned(r, r3) && m.gives(r3, a) && f(a, mb) && mb.gives(r, b);
        assert(r3 == r);
        assert(m.gives(r, a) && f(a, mb) && mb.gives(r, b) && g(b, mc));
    }
    assert forall|r: R, c: C| #[trigger] w.gives(r, c) implies fn_once_chain_gives(m, f, g, r, c) by {
        assert(fn_once_bind_gives(m, h, r, c));
        let (r1, a, mh) = choose|r1: R, a: A, mh: CFnOnce<R, C>|
            #![trigger m.gives(r1, a), h(a, mh), mh.gives(r, c)]
            cloned(r, r1) && m.gives(r1, a) && h(a, mh) && mh.gives(r, c);
        assert(r1 == r);
        let mb = choose|mb: CFnOnce<R, B>| #[trigger] f(a, mb) && <CFnOnceKind<R> as Bind<B, C>>::bound(mb, g, mh)
            && <CFnOnceKind<R> as Bind<B, C>>::bind_runs(mb, always(), g, mh);
        assert(fn_once_bind_gives(mb, g, r, c));
        let (r3, b, mc) = choose|r3: R, b: B, mc: CFnOnce<R, C>|
            #![trigger mb.gives(r3, b), g(b, mc), mc.gives(r, c)]
            cloned(r, r3) && mb.gives(r3, b) && g(b, mc) && mc.gives(r, c);
        assert(r3 == r);
        assert(m.gives(r, a) && f(a, mb) && mb.gives(r, b) && g(b, mc));
    }
}

/// Flattening a once-callable function whose results are lifted values of `m` does
/// what `m` did.
#[verifier::spinoff_prover]
pub proof fn fn_once_join_map_pure<R: Clone + 'static, A: Clone + 'static>(
    m: CFnOnce<R, A>,
    mm: CFnOnce<R, CFnOnce<R, A>>,
    out: CFnOnce<R, A>,
)
    requires
        clone_exact::<R>(),
        clone_exact::<A>(),
        <CFnOnceKind<R> as Functor<A, CFnOnce<R, A>>>::mapped(m, pure_rel::<CFnOnceKind<R>, A>(), mm),
        <CFnOnceKind<R> as Functor<A, CFnOnce<R, A>>>::map_runs(m, always(), mm),
        <CFnOnceKind<R> as Monad<A>>::joined(mm, out),
    ensures
        forall|r: R| m.accepts(r) ==> #[trigger] out.accepts(r),
        forall|r: R, b: A| #[trigger] out.gives(r, b) ==> m.gives(r, b),
{
    let pr = pure_rel::<CFnOnceKind<R>, A>();
    let sr = same_rel::<CFnOnce<R, A>>();
    assert forall|r: R| m.accepts(r) implies #[trigger] out.accepts(r) by {
        assert forall|r1: R| #[trigger] cloned(r, r1) implies mm.accepts(r1) by {
            assert(r1 == r);
        }
        assert forall|r1: R, ma: CFnOnce<R, A>, mb: CFnOnce<R, A>|
            #![trigger mm.gives(r1, ma), sr(ma, mb)]
            cloned(r, r1) && mm.gives(r1, ma) && sr(ma, mb) implies mb.accepts(r) by {
            let a = choose|a: A| m.gives(r1, a) && pr(a, ma);
            assert(<CFnOnceKind<R> as Applicative<A>>::is_pure(a, ma));
        }
        assert(fn_once_bind_ok_at(mm, always(), sr, r));
    }
    assert forall|r: R, b: A| #[trigger] out.gives(r, b) implies m.gives(r, b) by {
        assert(fn_once_bind_gives(mm, sr, r, b));
        let (r1, ma, mb) = choose|r1: R, ma: CFnOnce<R, A>, mb: CFnOnce<R, A>|
            #![trigger mm.gives(r1, ma), sr(ma, mb), mb.gives(r, b)]
            cloned(r, r1) && mm.gives(r1, ma) && sr(ma, mb) && mb.gives(r, b);
        let a = choose|a: A| m.gives(r1, a) && pr(a, ma);
        assert(<CFnOnceKind<R> as Applicative<A>>::is_pure(a, ma));
        assert(mb == ma);
        assert(cloned(a, b));
        assert(b == a && r1 == r);
    }
}

} // verus!

//! The functor laws for readers over any inner structure that satisfies them, and
//! the monad laws for readers over the identity monad and over options.

use crate::applicative::Applicative;
use crate::function::{always, compose_rel, same_rel};
use crate::functor::Functor;
use crate::kind_based::kind::{Kind, OptionKind};
use crate::identity::{Identity, IdentityKind};
use crate::monad::Bind;
use crate::transformers::reader::{reader_bind_ok_at, run_pre, run_related, Reader, ReaderT, ReaderTHKTMarker};
use super::{bind_after, clone_exact, pure_rel};
use vstd::prelude::*;

verus! {

/// With an exact `clone`, a reader bound to a function that accepts every value may
/// be run in `env` when the reader and every reader the function may give can.
proof fn lemma_reader_bind_ok<R: Clone, MM: Bind<A, B>, A, B>(
    input: ReaderT<R, <MM as Kind<A>>::Of, A>,
    rel: spec_fn(A, ReaderT<R, <MM as Kind<B>>::Of, B>) -> bool,
    env: R,
)
    requires
        clone_exact::<R>(),
        input.accepts(env),
        forall|a: A, rb: ReaderT<R, <MM as Kind<B>>::Of, B>| #[trigger] rel(a, rb) ==> rb.accepts(env),
    ensures
        reader_bind_ok_at::<R, MM, A, B>(input, always(), rel, env),
{
    let step = run_pre::<R, A, B, <MM as Kind<B>>::Of>(always(), rel, env);
    assert forall|a: A| #[trigger] always::<A>()(a) implies step(a) by {
        assert forall|rb: ReaderT<R, <MM as Kind<B>>::Of, B>, e2: R| #[trigger] rel(a, rb) && #[trigger] cloned(env, e2) implies rb.accepts(e2) by {
            assert(e2 == env);
        }
    }
    assert forall|e1: R, ma: <MM as Kind<A>>::Of| #[trigger] cloned(env, e1) && #[trigger] input.gives(e1, ma) implies MM::bind_ok(ma, step) by {
        MM::lemma_bind_ok_total(ma);
        MM::lemma_bind_ok_within(ma, always(), step);
    }
    assert forall|e1: R| #[trigger] cloned(env, e1) implies input.accepts(e1) by {
        assert(e1 == env);
    }
}

/// What a pure reader produces is the lift of a clone of its value.
#[verifier::spinoff_prover]
proof fn lemma_pure_reader_gives<R: Clone + 'static, A: Clone + 'static>(a: A, pa: Reader<R, A>, env: R, ma: Identity<A>)
    requires
        <ReaderTHKTMarker<R, IdentityKind> as Applicative<A>>::is_pure(a, pa),
        pa.gives(env, ma),
    ensures
        exists|v2: A| cloned(a, v2) && <IdentityKind as Applicative<A>>::is_pure(v2, ma),
{
}

/// Binding a lifted value to a function runs a reader the function gives for it.
#[verifier::spinoff_prover]
pub proof fn reader_bind_left_identity<R: Clone + 'static, A: Clone + 'static, B: 'static>(
    a: A,
    rel: spec_fn(A, Reader<R, B>) -> bool,
    out: Reader<R, B>,
)
    requires
        clone_exact::<R>(),
        clone_exact::<A>(),
        bind_after::<ReaderTHKTMarker<R, IdentityKind>, A, A, B>(pure_rel::<ReaderTHKTMarker<R, IdentityKind>, A>(), rel)(a, out),
    ensures
        forall|env: R| (forall|a2: A, rb: Reader<R, B>| #[trigger] rel(a2, rb) ==> rb.accepts(env)) ==> #[trigger] out.accepts(env),
        forall|env: R, mb: Identity<B>| #[trigger] out.gives(env, mb) ==> exists|rb: Reader<R, B>| #[trigger] rel(a, rb) && rb.gives(env, mb),
{
    let pa = choose|pa: Reader<R, A>|
        #[trigger] pure_rel::<ReaderTHKTMarker<R, IdentityKind>, A>()(a, pa)
            && <ReaderTHKTMarker<R, IdentityKind> as Bind<A, B>>::bound(pa, rel, out)
            && <ReaderTHKTMarker<R, IdentityKind> as Bind<A, B>>::bind_runs(pa, always(), rel, out);
    assert(<ReaderTHKTMarker<R, IdentityKind> as Applicative<A>>::is_pure(a, pa));
    assert forall|env: R| (forall|a2: A, rb: Reader<R, B>| #[trigger] rel(a2, rb) ==> rb.accepts(env)) implies #[trigger] out.accepts(env) by {
        lemma_reader_bind_ok::<R, IdentityKind, A, B>(pa, rel, env);
    }
    assert forall|env: R, mb: Identity<B>| #[trigger] out.gives(env, mb) implies exists|rb: Reader<R, B>| #[trigger] rel(a, rb) && rb.gives(env, mb) by {
        let (e1, ma) = choose|e1: R, ma: Identity<A>|
            #[trigger] cloned(env, e1) && #[trigger] pa.gives(e1, ma)
                && <IdentityKind as Bind<A, B>>::bound(ma, run_related::<R, A, B, Identity<B>>(rel, env), mb);
        lemma_pure_reader_gives(a, pa, e1, ma);
        let v2 = choose|v2: A| cloned(a, v2) && <IdentityKind as Applicative<A>>::is_pure(v2, ma);
        let (rb, e2) = choose|rb: Reader<R, B>, e2: R| #[trigger] rel(ma.0, rb) && #[trigger] cloned(env, e2) && rb.gives(e2, mb);
        assert(v2 == a);
        assert(e2 == env);
    }
}

/// Binding a reader to `pure` does what the reader did.
#[verifier::spinoff_prover]
pub proof fn reader_bind_right_identity<R: Clone + 'static, A: Clone + 'static>(m: Reader<R, A>, out: Reader<R, A>)
    requires
        clone_exact::<R>(),
        clone_exact::<A>(),
        <ReaderTHKTMarker<R, IdentityKind> as Bind<A, A>>::bound(m, pure_rel::<ReaderTHKTMarker<R, IdentityKind>, A>(), out),
        <ReaderTHKTMarker<R, IdentityKind> as Bind<A, A>>::bind_runs(m, always(), pure_rel::<ReaderTHKTMarker<R, IdentityKind>, A>(), out),
    ensures
        forall|env: R| m.accepts(env) ==> #[trigger] out.accepts(env),
        forall|env: R, ma: Identity<A>| #[trigger] out.gives(env, ma) ==> m.gives(env, ma),
{
    let pr = pure_rel::<ReaderTHKTMarker<R, IdentityKind>, A>();
    assert forall|env: R| m.accepts(env) implies #[trigger] out.accepts(env) by {
        assert forall|a: A, rb: Reader<R, A>| #[trigger] pr(a, rb) implies rb.accepts(env) by {
            assert(<ReaderTHKTMarker<R, IdentityKind> as Applicative<A>>::is_pure(a, rb));
        }
        lemma_reader_bind_ok::<R, IdentityKind, A, A>(m, pr, env);
    }
    assert forall|env: R, mb: Identity<A>| #[trigger] out.gives(env, mb) implies m.gives(env, mb) by {
        let (e1, ma) = choose|e1: R, ma: Identity<A>|
            #[trigger] cloned(env, e1) && #[trigger] m.gives(e1, ma)
                && <IdentityKind as Bind<A, A>>::bound(ma, run_related::<R, A, A, Identity<A>>(pr, env), mb);
        let (rb, e2) = choose|rb: Reader<R, A>, e2: R| #[trigger] pr(ma.0, rb) && #[trigger] cloned(env, e2) && rb.gives(e2, mb);
        assert(<ReaderTHKTMarker<R, IdentityKind> as Applicative<A>>::is_pure(ma.0, rb));
        let v2 = choose|v2: A| #[trigger] cloned(ma.0, v2) && <IdentityKind as Applicative<A>>::is_pure(v2, mb);
        assert(e1 == env);
        assert(mb == ma);
    }
}

/// Running `m` in `env`, then a reader `f` gives for its value, then a reader `g`
/// gives for that value, all in `env`, may produce `mc`.
pub open spec fn reader_chain_gives<R, A, B, C>(
    m: Reader<R, A>,
    f: spec_fn(A, Reader<R, B>) -> bool,
    g: spec_fn(B, Reader<R, C>) -> bool,
    env: R,
    mc: Identity<C>,
) -> bool {
    exists|a: A, rb: Reader<R, B>, b: B, rc: Reader<R, C>|
        #![trigger m.gives(env, Identity(a)), f(a, rb), rb.gives(env, Identity(b)), g(b, rc)]
        m.gives(env, Identity(a)) && f(a, rb) && rb.gives(env, Identity(b)) && g(b, rc) && rc.gives(env, mc)
}

/// `m` and every reader `f` or `g` may give can be run in `env`.
pub open spec fn reader_chain_ok<R, A, B, C, MA, MB, MC>(
    m: ReaderT<R, MA, A>,
    f: spec_fn(A, ReaderT<R, MB, B>) -> bool,
    g: spec_fn(B, ReaderT<R, MC, C>) -> bool,
    env: R,
) -> bool {
    &&& m.accepts(env)
    &&& forall|a: A, rb: ReaderT<R, MB, B>| #[trigger] f(a, rb) ==> rb.accepts(env)
    &&& forall|b: B, rc: ReaderT<R, MC, C>| #[trigger] g(b, rc) ==> rc.accepts(env)
}

/// Binding to `f` and then to `g` is binding to "`f` then bind to `g`": both run `m`,
/// a reader `f` gives and a reader `g` gives, in the same environment.
#[verifier::spinoff_prover]
pub proof fn reader_bind_associativity<R: Clone + 'static, A: 'static, B: 'static, C: 'static>(
    m: Reader<R, A>,
    f: spec_fn(A, Reader<R, B>) -> bool,
    g: spec_fn(B, Reader<R, C>) -> bool,
    y: Reader<R, B>,
    z: Reader<R, C>,
    w: Reader<R, C>,
)
    requires
        clone_exact::<R>(),
        <ReaderTHKTMarker<R, IdentityKind> as Bind<A, B>>::bound(m, f, y),
        <ReaderTHKTMarker<R, IdentityKind> as Bind<B, C>>::bound(y, g, z),
        <ReaderTHKTMarker<R, IdentityKind> as Bind<A, C>>::bound(m, bind_after::<ReaderTHKTMarker<R, IdentityKind>, A, B, C>(f, g), w),
        <ReaderTHKTMarker<R, IdentityKind> as Bind<A, B>>::bind_runs(m, always(), f, y),
        <ReaderTHKTMarker<R, IdentityKind> as Bind<B, C>>::bind_runs(y, always(), g, z),
        <ReaderTHKTMarker<R, IdentityKind> as Bind<A, C>>::bind_runs(m, always(), bind_after::<ReaderTHKTMarker<R, IdentityKind>, A, B, C>(f, g), w),
    ensures
        forall|env: R| reader_chain_ok(m, f, g, env) ==> #[trigger] z.accepts(env) && w.accepts(env),
        forall|env: R, mc: Identity<C>| #[trigger] z.gives(env, mc) ==> reader_chain_gives(m, f, g, env, mc),
        forall|env: R, mc: Identity<C>| #[trigger] w.gives(env, mc) ==> reader_chain_gives(m, f, g, env, mc),
{
    let h = bind_after::<ReaderTHKTMarker<R, IdentityKind>, A, B, C>(f, g);
    assert forall|env: R| reader_chain_ok(m, f, g, env) implies #[trigger] z.accepts(env) && w.accepts(env) by {
        lemma_reader_bind_ok::<R, IdentityKind, A, B>(m, f, env);
        lemma_reader_bind_ok::<R, IdentityKind, B, C>(y, g, env);
        assert forall|a: A, rh: Reader<R, C>| #[trigger] h(a, rh) implies rh.accepts(env) by {
            let rb = choose|rb: Reader<R, B>| #[trigger] f(a, rb) && <ReaderTHKTMarker<R, IdentityKind> as Bind<B, C>>::bound(rb, g, rh)
                && <ReaderTHKTMarker<R, IdentityKind> as Bind<B, C>>::bind_runs(rb, always(), g, rh);
            lemma_reader_bind_ok::<R, IdentityKind, B, C>(rb, g, env);
        }
        lemma_reader_bind_ok::<R, IdentityKind, A, C>(m, h, env);
    }
    assert forall|env: R, mc: Identity<C>| #[trigger] z.gives(env, mc) implies reader_chain_gives(m, f, g, env, mc) by {
        let (e1, mb) = choose|e1: R, mb: Identity<B>|
            #[trigger] cloned(env, e1) && #[trigger] y.gives(e1, mb)
                && <IdentityKind as Bind<B, C>>::bound(mb, run_related::<R, B, C, Identity<C>>(g, env), mc);
        let (e11, ma) = choose|e11: R, ma: Identity<A>|
            #[trigger] cloned(e1, e11) && #[trigger] m.gives(e11, ma)
                && <IdentityKind as Bind<A, B>>::bound(ma, run_related::<R, A, B, Identity<B>>(f, e1), mb);
        let (rb, e12) = choose|rb: Reader<R, B>, e12: R| #[trigger] f(ma.0, rb) && #[trigger] cloned(e1, e12) && rb.gives(e12, mb);
        let (rc, e2) = choose|rc: Reader<R, C>, e2: R| #[trigger] g(mb.0, rc) && #[trigger] cloned(env, e2) && rc.gives(e2, mc);
        assert(e1 == env && e11 == env && e12 == env && e2 == env);
        assert(ma == Identity(ma.0) && mb == Identity(mb.0));
        assert(m.gives(env, Identity(ma.0)) && f(ma.0, rb) && rb.gives(env, Identity(mb.0)) && g(mb.0, rc));
    }
    assert forall|env: R, mc: Identity<C>| #[trigger] w.gives(env, mc) implies reader_chain_gives(m, f, g, env, mc) by {
        let (e1, ma) = choose|e1: R, ma: Identity<A>|
            #[trigger] cloned(env, e1) && #[trigger] m.gives(e1, ma)
                && <IdentityKind as Bind<A, C>>::bound(ma, run_related::<R, A, C, Identity<C>>(h, env), mc);
        let (rh, e2) = choose|rh: Reader<R, C>, e2: R| #[trigger] h(ma.0, rh) && #[trigger] cloned(env, e2) && rh.gives(e2, mc);
        let rb = choose|rb: Reader<R, B>| #[trigger] f(ma.0, rb) && <ReaderTHKTMarker<R, IdentityKind> as Bind<B, C>>::bound(rb, g, rh)
            && <ReaderTHKTMarker<R, IdentityKind> as Bind<B, C>>::bind_runs(rb, always(), g, rh);
        let (e21, mb) = choose|e21: R, mb: Identity<B>|
            #[trigger] cloned(e2, e21) && #[trigger] rb.gives(e21, mb)
                && <IdentityKind as Bind<B, C>>::bound(mb, run_related::<R, B, C, Identity<C>>(g, e2), mc);
        let (rc, e22) = choose|rc: Reader<R, C>, e22: R| #[trigger] g(mb.0, rc) && #[trigger] cloned(e2, e22) && rc.gives(e22, mc);
        assert(e1 == env && e2 == env && e21 == env && e22 == env);
        assert(ma == Identity(ma.0) && mb == Identity(mb.0));
        assert(m.gives(env, Identity(ma.0)) && f(ma.0, rb) && rb.gives(env, Identity(mb.0)) && g(mb.0, rc));
    }
}

/// Mapping a relation within equality over a reader does what the reader did,
/// whenever mapping it over the inner structure keeps that structure.
#[verifier::spinoff_prover]
pub proof fn reader_map_identity<R: 'static, MM: Functor<A, A> + 'static, A: 'static>(
    x: ReaderT<R, <MM as Kind<A>>::Of, A>,
    out: ReaderT<R, <MM as Kind<A>>::Of, A>,
)
    requires
        forall|ma: <MM as Kind<A>>::Of, mb: <MM as Kind<A>>::Of| #[trigger] MM::mapped(ma, same_rel(), mb) ==> mb == ma,
        <ReaderTHKTMarker<R, MM> as Functor<A, A>>::mapped(x, same_rel(), out),
        <ReaderTHKTMarker<R, MM> as Functor<A, A>>::map_runs(x, always(), out),
    ensures
        forall|env: R| x.accepts(env) ==> #[trigger] out.accepts(env),
        forall|env: R, m: <MM as Kind<A>>::Of| #[trigger] out.gives(env, m) ==> x.gives(env, m),
{
    assert forall|env: R| x.accepts(env) implies #[trigger] out.accepts(env) by {
        assert forall|ma: <MM as Kind<A>>::Of| #[trigger] x.gives(env, ma) implies MM::map_ok(ma, always()) by {
            MM::lemma_map_ok_total(ma);
        }
    }
    assert forall|env: R, m: <MM as Kind<A>>::Of| #[trigger] out.gives(env, m) implies x.gives(env, m) by {
        let ma = choose|ma: <MM as Kind<A>>::Of| #[trigger] x.gives(env, ma) && MM::mapped(ma, same_rel(), m);
    }
}

/// Mapping `p` then `q` over a reader is mapping their composite, whenever that holds
/// of the inner structure.
#[verifier::spinoff_prover]
pub proof fn reader_map_composition<R: 'static, MM, A: 'static, B: 'static, C: 'static>(
    x: ReaderT<R, <MM as Kind<A>>::Of, A>,
    p: spec_fn(A, B) -> bool,
    q: spec_fn(B, C) -> bool,
    y: ReaderT<R, <MM as Kind<B>>::Of, B>,
    z: ReaderT<R, <MM as Kind<C>>::Of, C>,
) where
    MM: Functor<A, B> + Functor<B, C> + Functor<A, C> + 'static,

    requires
        forall|ma: <MM as Kind<A>>::Of, mb: <MM as Kind<B>>::Of, mc: <MM as Kind<C>>::Of|
            #[trigger] <MM as Functor<A, B>>::mapped(ma, p, mb) && #[trigger] <MM as Functor<B, C>>::mapped(mb, q, mc)
                ==> <MM as Functor<A, C>>::mapped(ma, compose_rel(p, q), mc),
        <ReaderTHKTMarker<R, MM> as Functor<A, B>>::mapped(x, p, y),
        <ReaderTHKTMarker<R, MM> as Functor<B, C>>::mapped(y, q, z),
    ensures
        <ReaderTHKTMarker<R, MM> as Functor<A, C>>::mapped(x, compose_rel(p, q), z),
{
    assert forall|env: R, mc: <MM as Kind<C>>::Of| #[trigger] z.gives(env, mc) implies exists|ma: <MM as Kind<A>>::Of|
        #[trigger] x.gives(env, ma) && <MM as Functor<A, C>>::mapped(ma, compose_rel(p, q), mc) by {
        let mb = choose|mb: <MM as Kind<B>>::Of| #[trigger] y.gives(env, mb) && <MM as Functor<B, C>>::mapped(mb, q, mc);
        let ma = choose|ma: <MM as Kind<A>>::Of| #[trigger] x.gives(env, ma) && <MM as Functor<A, B>>::mapped(ma, p, mb);
    }
}

// Readers into options.

/// Binding a lifted value to a function runs, for readers into options, a reader the
/// function gives for it.
#[verifier::spinoff_prover]
pub proof fn reader_option_bind_left_identity<R: Clone + 'static, A: Clone + 'static, B: 'static>(
    a: A,
    rel: spec_fn(A, ReaderT<R, Option<B>, B>) -> bool,
    out: ReaderT<R, Option<B>, B>,
)
    requires
        clone_exact::<R>(),
        clone_exact::<A>(),
        bind_after::<ReaderTHKTMarker<R, OptionKind>, A, A, B>(pure_rel::<ReaderTHKTMarker<R, OptionKind>, A>(), rel)(a, out),
    ensures
        forall|env: R| (forall|a2: A, rb: ReaderT<R, Option<B>, B>| #[trigger] rel(a2, rb) ==> rb.accepts(env)) ==> #[trigger] out.accepts(env),
        forall|env: R, mb: Option<B>| #[trigger] out.gives(env, mb) ==> exists|rb: ReaderT<R, Option<B>, B>| #[trigger] rel(a, rb) && rb.gives(env, mb),
{
    let pa = choose|pa: ReaderT<R, Option<A>, A>|
        #[trigger] pure_rel::<ReaderTHKTMarker<R, OptionKind>, A>()(a, pa)
            && <ReaderTHKTMarker<R, OptionKind> as Bind<A, B>>::bound(pa, rel, out)
            && <ReaderTHKTMarker<R, OptionKind> as Bind<A, B>>::bind_runs(pa, always(), rel, out);
    assert(<ReaderTHKTMarker<R, OptionKind> as Applicative<A>>::is_pure(a, pa));
    assert forall|env: R| (forall|a2: A, rb: ReaderT<R, Option<B>, B>| #[trigger] rel(a2, rb) ==> rb.accepts(env)) implies #[trigger] out.accepts(env) by {
        lemma_reader_bind_ok::<R, OptionKind, A, B>(pa, rel, env);
    }
    assert forall|env: R, mb: Option<B>| #[trigger] out.gives(env, mb) implies exists|rb: ReaderT<R, Option<B>, B>| #[trigger] rel(a, rb) && rb.gives(env, mb) by {
        let (e1, ma) = choose|e1: R, ma: Option<A>|
            #[trigger] cloned(env, e1) && #[trigger] pa.gives(e1, ma)
                && <OptionKind as Bind<A, B>>::bound(ma, run_related::<R, A, B, Option<B>>(rel, env), mb);
        lemma_option_pure_reader_gives(a, pa, e1, ma);
        let v2 = choose|v2: A| cloned(a, v2) && <OptionKind as Applicative<A>>::is_pure(v2, ma);
        assert(v2 == a);
        let (rb, e2) = choose|rb: ReaderT<R, Option<B>, B>, e2: R| #[trigger] rel(a, rb) && #[trigger] cloned(env, e2) && rb.gives(e2, mb);
        assert(e2 == env);
    }
}

/// What a pure reader into options produces is `Some` of a clone of its value.
#[verifier::spinoff_prover]
proof fn lemma_option_pure_reader_gives<R: Clone + 'static, A: Clone + 'static>(
    a: A,
    pa: ReaderT<R, Option<A>, A>,
    env: R,
    ma: Option<A>,
)
    requires
        <ReaderTHKTMarker<R, OptionKind> as Applicative<A>>::is_pure(a, pa),
        pa.gives(env, ma),
    ensures
        exists|v2: A| cloned(a, v2) && <OptionKind as Applicative<A>>::is_pure(v2, ma),
{
}

/// Binding a reader into options to `pure` does what the reader did.
#[verifier::spinoff_prover]
pub proof fn reader_option_bind_right_identity<R: Clone + 'static, A: Clone + 'static>(
    m: ReaderT<R, Option<A>, A>,
    out: ReaderT<R, Option<A>, A>,
)
    requires
        clone_exact::<R>(),
        clone_exact::<A>(),
        <ReaderTHKTMarker<R, OptionKind> as Bind<A, A>>::bound(m, pure_rel::<ReaderTHKTMarker<R, OptionKind>, A>(), out),
        <ReaderTHKTMarker<R, OptionKind> as Bind<A, A>>::bind_runs(m, always(), pure_rel::<ReaderTHKTMarker<R, OptionKind>, A>(), out),
    ensures
        forall|env: R| m.accepts(env) ==> #[trigger] out.accepts(env),
        forall|env: R, ma: Option<A>| #[trigger] out.gives(env, ma) ==> m.gives(env, ma),
{
    let pr = pure_rel::<ReaderTHKTMarker<R, OptionKind>, A>();
    assert forall|env: R| m.accepts(env) implies #[trigger] out.accepts(env) by {
        assert forall|a: A, rb: ReaderT<R, Option<A>, A>| #[trigger] pr(a, rb) implies rb.accepts(env) by {
            assert(<ReaderTHKTMarker<R, OptionKind> as Applicative<A>>::is_pure(a, rb));
        }
        lemma_reader_bind_ok::<R, OptionKind, A, A>(m, pr, env);
    }
    assert forall|env: R, mb: Option<A>| #[trigger] out.gives(env, mb) implies m.gives(env, mb) by {
        let (e1, ma) = choose|e1: R, ma: Option<A>|
            #[trigger] cloned(env, e1) && #[trigger] m.gives(e1, ma)
                && <OptionKind as Bind<A, A>>::bound(ma, run_related::<R, A, A, Option<A>>(pr, env), mb);
        assert(e1 == env);
        if let Some(a) = ma {
            let (rb, e2) = choose|rb: ReaderT<R, Option<A>, A>, e2: R| #[trigger] pr(a, rb) && #[trigger] cloned(env, e2) && rb.gives(e2, mb);
            assert(<ReaderTHKTMarker<R, OptionKind> as Applicative<A>>::is_pure(a, rb));
            lemma_option_pure_reader_gives(a, rb, e2, mb);
            let v2 = choose|v2: A| cloned(a, v2) && <OptionKind as Applicative<A>>::is_pure(v2, mb);
            assert(v2 == a);
        }
    }
}

/// Running `m` in `env`, then (if it produced a value) a reader `f` gives for its
/// value, then (if that produced a value) a reader `g` gives for it, all in `env`,
/// may produce `mc`; a `None` stops the chain.
pub open spec fn reader_option_chain_gives<R, A, B, C>(
    m: ReaderT<R, Option<A>, A>,
    f: spec_fn(A, ReaderT<R, Option<B>, B>) -> bool,
    g: spec_fn(B, ReaderT<R, Option<C>, C>) -> bool,
    env: R,
    mc: Option<C>,
) -> bool {
    ||| m.gives(env, None) && mc is None
    ||| exists|a: A, rb: ReaderT<R, Option<B>, B>|
        #![trigger m.gives(env, Some(a)), f(a, rb)]
        m.gives(env, Some(a)) && f(a, rb) && rb.gives(env, None) && mc is None
    ||| exists|a: A, rb: ReaderT<R, Option<B>, B>, b: B, rc: ReaderT<R, Option<C>, C>|
        #![trigger m.gives(env, Some(a)), f(a, rb), rb.gives(env, Some(b)), g(b, rc)]
        m.gives(env, Some(a)) && f(a, rb) && rb.gives(env, Some(b)) && g(b, rc) && rc.gives(env, mc)
}

/// Binding readers into options to `f` and then to `g` is binding to "`f` then bind
/// to `g`": both run `m`, a reader `f` gives and a reader `g` gives in the same
/// environment, stopping at the first `None`.
#[verifier::spinoff_prover]
pub proof fn reader_option_bind_associativity<R: Clone + 'static, A: 'static, B: 'static, C: 'static>(
    m: ReaderT<R, Option<A>, A>,
    f: spec_fn(A, ReaderT<R, Option<B>, B>) -> bool,
    g: spec_fn(B, ReaderT<R, Option<C>, C>) -> bool,
    y: ReaderT<R, Option<B>, B>,
    z: ReaderT<R, Option<C>, C>,
    w: ReaderT<R, Option<C>, C>,
)
    requires
        clone_exact::<R>(),
        <ReaderTHKTMarker<R, OptionKind> as Bind<A, B>>::bound(m, f, y),
        <ReaderTHKTMarker<R, OptionKind> as Bind<B, C>>::bound(y, g, z),
        <ReaderTHKTMarker<R, OptionKind> as Bind<A, C>>::bound(m, bind_after::<ReaderTHKTMarker<R, OptionKind>, A, B, C>(f, g), w),
        <ReaderTHKTMarker<R, OptionKind> as Bind<A, B>>::bind_runs(m, always(), f, y),
        <ReaderTHKTMarker<R, OptionKind> as Bind<B, C>>::bind_runs(y, always(), g, z),
        <ReaderTHKTMarker<R, OptionKind> as Bind<A, C>>::bind_runs(m, always(), bind_after::<ReaderTHKTMarker<R, OptionKind>, A, B, C>(f, g), w),
    ensures
        forall|env: R| reader_chain_ok(m, f, g, env) ==> #[trigger] z.accepts(env) && w.accepts(env),
        forall|env: R, mc: Option<C>| #[trigger] z.gives(env, mc) ==> reader_option_chain_gives(m, f, g, env, mc),
        forall|env: R, mc: Option<C>| #[trigger] w.gives(env, mc) ==> reader_option_chain_gives(m, f, g, env, mc),
{
    let h = bind_after::<ReaderTHKTMarker<R, OptionKind>, A, B, C>(f, g);
    assert forall|env: R| reader_chain_ok(m, f, g, env) implies #[trigger] z.accepts(env) && w.accepts(env) by {
        lemma_reader_bind_ok::<R, OptionKind, A, B>(m, f, env);
        lemma_reader_bind_ok::<R, OptionKind, B, C>(y, g, env);
        assert forall|a: A, rh: ReaderT<R, Option<C>, C>| #[trigger] h(a, rh) implies rh.accepts(env) by {
            let rb = choose|rb: ReaderT<R, Option<B>, B>| #[trigger] f(a, rb) && <ReaderTHKTMarker<R, OptionKind> as Bind<B, C>>::bound(rb, g, rh)
                && <ReaderTHKTMarker<R, OptionKind> as Bind<B, C>>::bind_runs(rb, always(), g, rh);
            lemma_reader_bind_ok::<R, OptionKind, B, C>(rb, g, env);
        }
        lemma_reader_bind_ok::<R, OptionKind, A, C>(m, h, env);
    }
    assert forall|env: R, mc: Option<C>| #[trigger] z.gives(env, mc) implies reader_option_chain_gives(m, f, g, env, mc) by {
        let (e1, mb) = choose|e1: R, mb: Option<B>|
            #[trigger] cloned(env, e1) && #[trigger] y.gives(e1, mb)
                && <OptionKind as Bind<B, C>>::bound(mb, run_related::<R, B, C, Option<C>>(g, env), mc);
        let (e11, ma) = choose|e11: R, ma: Option<A>|
            #[trigger] cloned(e1, e11) && #[trigger] m.gives(e11, ma)
                && <OptionKind as Bind<A, B>>::bound(ma, run_related::<R, A, B, Option<B>>(f, e1), mb);
        assert(e1 == env && e11 == env);
        match ma {
            None => {
                assert(m.gives(env, None));
            },
            Some(a) => {
                let (rb, e12) = choose|rb: ReaderT<R, Option<B>, B>, e12: R| #[trigger] f(a, rb) && #[trigger] cloned(e1, e12) && rb.gives(e12, mb);
                assert(e12 == env);
                match mb {
                    None => {
                        assert(m.gives(env, Some(a)) && f(a, rb) && rb.gives(env, None));
                    },
                    Some(b) => {
                        let (rc, e2) = choose|rc: ReaderT<R, Option<C>, C>, e2: R| #[trigger] g(b, rc) && #[trigger] cloned(env, e2) && rc.gives(e2, mc);
                        assert(e2 == env);
                        assert(m.gives(env, Some(a)) && f(a, rb) && rb.gives(env, Some(b)) && g(b, rc));
                    },
                }
            },
        }
    }
    assert forall|env: R, mc: Option<C>| #[trigger] w.gives(env, mc) implies reader_option_chain_gives(m, f, g, env, mc) by {
        let (e1, ma) = choose|e1: R, ma: Option<A>|
            #[trigger] cloned(env, e1) && #[trigger] m.gives(e1, ma)
                && <OptionKind as Bind<A, C>>::bound(ma, run_related::<R, A, C, Option<C>>(h, env), mc);
        assert(e1 == env);
        match ma {
            None => {
                assert(m.gives(env, None));
            },
            Some(a) => {
                let (rh, e2) = choose|rh: ReaderT<R, Option<C>, C>, e2: R| #[trigger] h(a, rh) && #[trigger] cloned(env, e2) && rh.gives(e2, mc);
                let rb = choose|rb: ReaderT<R, Option<B>, B>| #[trigger] f(a, rb) && <ReaderTHKTMarker<R, OptionKind> as Bind<B, C>>::bound(rb, g, rh)
                    && <ReaderTHKTMarker<R, OptionKind> as Bind<B, C>>::bind_runs(rb, always(), g, rh);
                let (e21, mb) = choose|e21: R, mb: Option<B>|
                    #[trigger] cloned(e2, e21) && #[trigger] rb.gives(e21, mb)
                        && <OptionKind as Bind<B, C>>::bound(mb, run_related::<R, B, C, Option<C>>(g, e2), mc);
                assert(e2 == env && e21 == env);
                match mb {
                    None => {
                        assert(m.gives(env, Some(a)) && f(a, rb) && rb.gives(env, None));
                    },
                    Some(b) => {
                        let (rc, e22) = choose|rc: ReaderT<R, Option<C>, C>, e22: R| #[trigger] g(b, rc) && #[trigger] cloned(e2, e22) && rc.gives(e22, mc);
                        assert(e22 == env);
                        assert(m.gives(env, Some(a)) && f(a, rb) && rb.gives(env, Some(b)) && g(b, rc));
                    },
                }
            },
        }
    }
}


/// Binding a lifted value to a function runs a reader the function gives for it,
/// over any inner structure on which binding a lifted value gives what the relation
/// relates to the value.
#[verifier::spinoff_prover]
pub proof fn reader_inner_bind_left_identity<R: Clone + 'static, MM, A: Clone + 'static, B: 'static>(
    a: A,
    rel: spec_fn(A, ReaderT<R, <MM as Kind<B>>::Of, B>) -> bool,
    out: ReaderT<R, <MM as Kind<B>>::Of, B>,
) where
    MM: Applicative<A> + Bind<A, B> + 'static,

    requires
        clone_exact::<R>(),
        clone_exact::<A>(),
        forall|x: A, ma: <MM as Kind<A>>::Of, q: spec_fn(A, <MM as Kind<B>>::Of) -> bool, mb: <MM as Kind<B>>::Of|
            #[trigger] MM::is_pure(x, ma) && #[trigger] MM::bound(ma, q, mb) ==> q(x, mb),
        bind_after::<ReaderTHKTMarker<R, MM>, A, A, B>(pure_rel::<ReaderTHKTMarker<R, MM>, A>(), rel)(a, out),
    ensures
        forall|env: R|
            (forall|a2: A, rb: ReaderT<R, <MM as Kind<B>>::Of, B>| #[trigger] rel(a2, rb) ==> rb.accepts(env))
                ==> #[trigger] out.accepts(env),
        forall|env: R, mb: <MM as Kind<B>>::Of|
            #[trigger] out.gives(env, mb) ==> exists|rb: ReaderT<R, <MM as Kind<B>>::Of, B>| #[trigger] rel(a, rb) && rb.gives(env, mb),
{
    let pa = choose|pa: ReaderT<R, <MM as Kind<A>>::Of, A>|
        #[trigger] pure_rel::<ReaderTHKTMarker<R, MM>, A>()(a, pa)
            && <ReaderTHKTMarker<R, MM> as Bind<A, B>>::bound(pa, rel, out)
            && <ReaderTHKTMarker<R, MM> as Bind<A, B>>::bind_runs(pa, always(), rel, out);
    assert(<ReaderTHKTMarker<R, MM> as Applicative<A>>::is_pure(a, pa));
    assert forall|env: R|
        (forall|a2: A, rb: ReaderT<R, <MM as Kind<B>>::Of, B>| #[trigger] rel(a2, rb) ==> rb.accepts(env))
            implies #[trigger] out.accepts(env) by {
        lemma_reader_bind_ok::<R, MM, A, B>(pa, rel, env);
    }
    assert forall|env: R, mb: <MM as Kind<B>>::Of| #[trigger] out.gives(env, mb) implies exists|rb: ReaderT<R, <MM as Kind<B>>::Of, B>|
        #[trigger] rel(a, rb) && rb.gives(env, mb) by {
        let rr = run_related::<R, A, B, <MM as Kind<B>>::Of>(rel, env);
        let (e1, ma) = choose|e1: R, ma: <MM as Kind<A>>::Of|
            #[trigger] cloned(env, e1) && #[trigger] pa.gives(e1, ma) && MM::bound(ma, rr, mb);
        let v2 = choose|v2: A| #[trigger] cloned(a, v2) && MM::is_pure(v2, ma);
        assert(v2 == a);
        assert(rr(a, mb));
        let (rb, e2) = choose|rb: ReaderT<R, <MM as Kind<B>>::Of, B>, e2: R| #[trigger] rel(a, rb) && #[trigger] cloned(env, e2) && rb.gives(e2, mb);
        assert(e2 == env);
    }
}

/// Binding a reader to `pure` does what the reader did, over any inner structure on
/// which binding to `pure` gives the structure back.
#[verifier::spinoff_prover]
pub proof fn reader_inner_bind_right_identity<R: Clone + 'static, MM, A: Clone + 'static>(
    m: ReaderT<R, <MM as Kind<A>>::Of, A>,
    out: ReaderT<R, <MM as Kind<A>>::Of, A>,
) where
    MM: Applicative<A> + Bind<A, A> + 'static,

    requires
        clone_exact::<R>(),
        clone_exact::<A>(),
        forall|ma: <MM as Kind<A>>::Of, mb: <MM as Kind<A>>::Of| #[trigger] MM::bound(ma, pure_rel::<MM, A>(), mb) ==> mb == ma,
        <ReaderTHKTMarker<R, MM> as Bind<A, A>>::bound(m, pure_rel::<ReaderTHKTMarker<R, MM>, A>(), out),
        <ReaderTHKTMarker<R, MM> as Bind<A, A>>::bind_runs(m, always(), pure_rel::<ReaderTHKTMarker<R, MM>, A>(), out),
    ensures
        forall|env: R| m.accepts(env) ==> #[trigger] out.accepts(env),
        forall|env: R, ma: <MM as Kind<A>>::Of| #[trigger] out.gives(env, ma) ==> m.gives(env, ma),
{
    let pr = pure_rel::<ReaderTHKTMarker<R, MM>, A>();
    assert forall|env: R| m.accepts(env) implies #[trigger] out.accepts(env) by {
        assert forall|a: A, rb: ReaderT<R, <MM as Kind<A>>::Of, A>| #[trigger] pr(a, rb) implies rb.accepts(env) by {
            assert(<ReaderTHKTMarker<R, MM> as Applicative<A>>::is_pure(a, rb));
        }
        lemma_reader_bind_ok::<R, MM, A, A>(m, pr, env);
    }
    assert forall|env: R, mb: <MM as Kind<A>>::Of| #[trigger] out.gives(env, mb) implies m.gives(env, mb) by {
        let rr = run_related::<R, A, A, <MM as Kind<A>>::Of>(pr, env);
        let (e1, ma) = choose|e1: R, ma: <MM as Kind<A>>::Of|
            #[trigger] cloned(env, e1) && #[trigger] m.gives(e1, ma) && MM::bound(ma, rr, mb);
        let inner = pure_rel::<MM, A>();
        assert forall|a: A, x: <MM as Kind<A>>::Of| #[trigger] rr(a, x) implies inner(a, x) by {
            let (rb, e2) = choose|rb: ReaderT<R, <MM as Kind<A>>::Of, A>, e2: R| #[trigger] pr(a, rb) && #[trigger] cloned(env, e2) && rb.gives(e2, x);
            assert(<ReaderTHKTMarker<R, MM> as Applicative<A>>::is_pure(a, rb));
            let v2 = choose|v2: A| #[trigger] cloned(a, v2) && MM::is_pure(v2, x);
            assert(v2 == a);
        }
        MM::lemma_bound_within(ma, rr, inner, mb);
        assert(e1 == env);
    }
}

} // verus!

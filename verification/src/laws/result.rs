//! The functor, applicative and monad laws for `Result`.

use crate::applicative::Applicative;
use crate::apply::{is_identity_fn, Apply};
use crate::function::{compose_rel, functional, same_rel, CFn};
use crate::functor::Functor;
use crate::kind_based::kind::ResultKind;
use crate::monad::{Bind, Monad};
use super::{bind_after, eval_at, is_evaluator_at, pure_rel};
use vstd::prelude::*;

verus! {

/// Mapping a relation within equality over a result leaves it unchanged.
pub proof fn result_map_identity<A, E: Clone>(x: Result<A, E>, out: Result<A, E>)
    requires
        <ResultKind<E> as Functor<A, A>>::mapped(x, same_rel(), out),
    ensures
        out == x,
{
}

/// Mapping `p` then `q` over a result is mapping their composite; for functional
/// relations the two results are equal.
pub proof fn result_map_composition<A, B, C, E: Clone>(
    x: Result<A, E>,
    p: spec_fn(A, B) -> bool,
    q: spec_fn(B, C) -> bool,
    y: Result<B, E>,
    z: Result<C, E>,
    w: Result<C, E>,
)
    requires
        <ResultKind<E> as Functor<A, B>>::mapped(x, p, y),
        <ResultKind<E> as Functor<B, C>>::mapped(y, q, z),
        <ResultKind<E> as Functor<A, C>>::mapped(x, compose_rel(p, q), w),
    ensures
        <ResultKind<E> as Functor<A, C>>::mapped(x, compose_rel(p, q), z),
        functional(p) && functional(q) ==> w == z,
{
    if let Ok(a) = x {
        let b = y->Ok_0;
        assert(p(a, b) && q(b, z->Ok_0));
        if functional(p) && functional(q) {
            let b2 = choose|b2: B| #[trigger] p(a, b2) && q(b2, w->Ok_0);
            assert(p(a, b) && p(a, b2));
            assert(q(b, z->Ok_0) && q(b, w->Ok_0));
        }
    }
}

/// Applying a lifted identity function to a result leaves it unchanged.
pub proof fn result_apply_identity<A, E: Clone>(v: Result<A, E>, f: CFn<A, A>, pf: Result<CFn<A, A>, E>, out: Result<A, E>)
    requires
        is_identity_fn(f),
        <ResultKind<E> as Applicative<CFn<A, A>>>::is_pure(f, pf),
        <ResultKind<E> as Apply<A, A>>::applied(v, pf, out),
    ensures
        out == v,
{
}

/// Applying a lifted function to a lifted value lifts a result of the function.
pub proof fn result_apply_homomorphism<A, B, E: Clone>(x: A, px: Result<A, E>, f: CFn<A, B>, pf: Result<CFn<A, B>, E>, out: Result<B, E>)
    requires
        <ResultKind<E> as Applicative<A>>::is_pure(x, px),
        <ResultKind<E> as Applicative<CFn<A, B>>>::is_pure(f, pf),
        <ResultKind<E> as Apply<A, B>>::applied(px, pf, out),
    ensures
        exists|b: B| f.gives(x, b) && <ResultKind<E> as Applicative<B>>::is_pure(b, out),
{
    let b = out->Ok_0;
    assert(f.gives(x, b) && <ResultKind<E> as Applicative<B>>::is_pure(b, out));
}

/// Applying functions to a lifted value `y` is mapping evaluation at `y` over them,
/// and so is applying a lifted evaluator at `y` to them.
pub proof fn result_apply_interchange<A, B, E: Clone>(
    y: A,
    py: Result<A, E>,
    u: Result<CFn<A, B>, E>,
    e: CFn<CFn<A, B>, B>,
    pe: Result<CFn<CFn<A, B>, B>, E>,
    o1: Result<B, E>,
    o2: Result<B, E>,
)
    requires
        <ResultKind<E> as Applicative<A>>::is_pure(y, py),
        <ResultKind<E> as Apply<A, B>>::applied(py, u, o1),
        is_evaluator_at(e, y),
        <ResultKind<E> as Applicative<CFn<CFn<A, B>, B>>>::is_pure(e, pe),
        <ResultKind<E> as Apply<CFn<A, B>, B>>::applied(u, pe, o2),
    ensures
        <ResultKind<E> as Functor<CFn<A, B>, B>>::mapped(u, eval_at(y), o1),
        <ResultKind<E> as Functor<CFn<A, B>, B>>::mapped(u, eval_at(y), o2),
{
}

/// Applying a lifted function is mapping it.
pub proof fn result_apply_is_map<A, B, E: Clone>(x: Result<A, E>, c: CFn<A, B>, pc: Result<CFn<A, B>, E>, out: Result<B, E>)
    requires
        <ResultKind<E> as Applicative<CFn<A, B>>>::is_pure(c, pc),
        <ResultKind<E> as Apply<A, B>>::applied(x, pc, out),
    ensures
        <ResultKind<E> as Functor<A, B>>::mapped(x, |a: A, b: B| c.gives(a, b), out),
{
}

/// Binding a lifted value to a function gives a result of the function on the value.
pub proof fn result_bind_left_identity<A, B, E: Clone>(a: A, pa: Result<A, E>, rel: spec_fn(A, Result<B, E>) -> bool, out: Result<B, E>)
    requires
        <ResultKind<E> as Applicative<A>>::is_pure(a, pa),
        <ResultKind<E> as Bind<A, B>>::bound(pa, rel, out),
    ensures
        rel(a, out),
{
}

/// Binding a result to `pure` leaves it unchanged.
pub proof fn result_bind_right_identity<A, E: Clone>(m: Result<A, E>, out: Result<A, E>)
    requires
        <ResultKind<E> as Bind<A, A>>::bound(m, pure_rel::<ResultKind<E>, A>(), out),
    ensures
        out == m,
{
}

/// Binding to `p` and then to `q` is binding to "`p` then bind to `q`".
pub proof fn result_bind_associativity<A, B, C, E: Clone>(
    m: Result<A, E>,
    p: spec_fn(A, Result<B, E>) -> bool,
    q: spec_fn(B, Result<C, E>) -> bool,
    y: Result<B, E>,
    z: Result<C, E>,
)
    requires
        <ResultKind<E> as Bind<A, B>>::bound(m, p, y),
        <ResultKind<E> as Bind<B, C>>::bound(y, q, z),
    ensures
        <ResultKind<E> as Bind<A, C>>::bound(m, bind_after::<ResultKind<E>, A, B, C>(p, q), z),
{
    if let Ok(a) = m {
        assert(p(a, y) && <ResultKind<E> as Bind<B, C>>::bound(y, q, z));
    }
}

/// Flattening a lifted result gives it back.
pub proof fn result_join_pure<A, E: Clone>(ma: Result<A, E>, mma: Result<Result<A, E>, E>, out: Result<A, E>)
    requires
        <ResultKind<E> as Applicative<Result<A, E>>>::is_pure(ma, mma),
        <ResultKind<E> as Monad<A>>::joined(mma, out),
    ensures
        out == ma,
{
}

/// Flattening a result of lifted values gives it back.
pub proof fn result_join_map_pure<A, E: Clone>(m: Result<A, E>, mm: Result<Result<A, E>, E>, out: Result<A, E>)
    requires
        <ResultKind<E> as Functor<A, Result<A, E>>>::mapped(m, pure_rel::<ResultKind<E>, A>(), mm),
        <ResultKind<E> as Monad<A>>::joined(mm, out),
    ensures
        out == m,
{
}

} // verus!

//! The functor, applicative and monad laws for `Identity`.

use crate::applicative::Applicative;
use crate::apply::{is_identity_fn, Apply};
use crate::function::{compose_rel, functional, same_rel, CFn};
use crate::functor::Functor;
use crate::identity::{Identity, IdentityKind};
use crate::monad::{Bind, Monad};
use super::{bind_after, eval_at, is_evaluator_at, pure_rel};
use vstd::prelude::*;

verus! {

/// Mapping a relation within equality over an identity leaves it unchanged.
pub proof fn identity_map_identity<A>(x: Identity<A>, out: Identity<A>)
    requires
        <IdentityKind as Functor<A, A>>::mapped(x, same_rel(), out),
    ensures
        out == x,
{
}

/// Mapping `p` then `q` is mapping their composite; for functional relations the
/// two results are equal.
pub proof fn identity_map_composition<A, B, C>(
    x: Identity<A>,
    p: spec_fn(A, B) -> bool,
    q: spec_fn(B, C) -> bool,
    y: Identity<B>,
    z: Identity<C>,
    w: Identity<C>,
)
    requires
        <IdentityKind as Functor<A, B>>::mapped(x, p, y),
        <IdentityKind as Functor<B, C>>::mapped(y, q, z),
        <IdentityKind as Functor<A, C>>::mapped(x, compose_rel(p, q), w),
    ensures
        <IdentityKind as Functor<A, C>>::mapped(x, compose_rel(p, q), z),
        functional(p) && functional(q) ==> w == z,
{
    assert(p(x.0, y.0) && q(y.0, z.0));
    if functional(p) && functional(q) {
        let b2 = choose|b2: B| #[trigger] p(x.0, b2) && q(b2, w.0);
        assert(p(x.0, y.0) && p(x.0, b2));
        assert(q(y.0, z.0) && q(y.0, w.0));
    }
}

/// Applying a lifted identity function leaves the value unchanged.
pub proof fn identity_apply_identity<A>(v: Identity<A>, f: CFn<A, A>, pf: Identity<CFn<A, A>>, out: Identity<A>)
    requires
        is_identity_fn(f),
        <IdentityKind as Applicative<CFn<A, A>>>::is_pure(f, pf),
        <IdentityKind as Apply<A, A>>::applied(v, pf, out),
    ensures
        out == v,
{
}

/// Applying a lifted function to a lifted value lifts a result of the function.
pub proof fn identity_apply_homomorphism<A, B>(x: A, px: Identity<A>, f: CFn<A, B>, pf: Identity<CFn<A, B>>, out: Identity<B>)
    requires
        <IdentityKind as Applicative<A>>::is_pure(x, px),
        <IdentityKind as Applicative<CFn<A, B>>>::is_pure(f, pf),
        <IdentityKind as Apply<A, B>>::applied(px, pf, out),
    ensures
        exists|b: B| f.gives(x, b) && <IdentityKind as Applicative<B>>::is_pure(b, out),
{
    assert(f.gives(x, out.0) && <IdentityKind as Applicative<B>>::is_pure(out.0, out));
}

/// Applying a function to a lifted value `y` is mapping evaluation at `y`, and so is
/// applying a lifted evaluator at `y` to the function.
pub proof fn identity_apply_interchange<A, B>(
    y: A,
    py: Identity<A>,
    u: Identity<CFn<A, B>>,
    e: CFn<CFn<A, B>, B>,
    pe: Identity<CFn<CFn<A, B>, B>>,
    o1: Identity<B>,
    o2: Identity<B>,
)
    requires
        <IdentityKind as Applicative<A>>::is_pure(y, py),
        <IdentityKind as Apply<A, B>>::applied(py, u, o1),
        is_evaluator_at(e, y),
        <IdentityKind as Applicative<CFn<CFn<A, B>, B>>>::is_pure(e, pe),
        <IdentityKind as Apply<CFn<A, B>, B>>::applied(u, pe, o2),
    ensures
        <IdentityKind as Functor<CFn<A, B>, B>>::mapped(u, eval_at(y), o1),
        <IdentityKind as Functor<CFn<A, B>, B>>::mapped(u, eval_at(y), o2),
{
}

/// Applying a lifted function is mapping it.
pub proof fn identity_apply_is_map<A, B>(x: Identity<A>, c: CFn<A, B>, pc: Identity<CFn<A, B>>, out: Identity<B>)
    requires
        <IdentityKind as Applicative<CFn<A, B>>>::is_pure(c, pc),
        <IdentityKind as Apply<A, B>>::applied(x, pc, out),
    ensures
        <IdentityKind as Functor<A, B>>::mapped(x, |a: A, b: B| c.gives(a, b), out),
{
}

/// Binding a lifted value to a function gives a result of the function on the value.
pub proof fn identity_bind_left_identity<A, B>(a: A, pa: Identity<A>, rel: spec_fn(A, Identity<B>) -> bool, out: Identity<B>)
    requires
        <IdentityKind as Applicative<A>>::is_pure(a, pa),
        <IdentityKind as Bind<A, B>>::bound(pa, rel, out),
    ensures
        rel(a, out),
{
}

/// Binding to `pure` leaves the value unchanged.
pub proof fn identity_bind_right_identity<A>(m: Identity<A>, out: Identity<A>)
    requires
        <IdentityKind as Bind<A, A>>::bound(m, pure_rel::<IdentityKind, A>(), out),
    ensures
        out == m,
{
}

/// Binding to `p` and then to `q` is binding to "`p` then bind to `q`".
pub proof fn identity_bind_associativity<A, B, C>(
    m: Identity<A>,
    p: spec_fn(A, Identity<B>) -> bool,
    q: spec_fn(B, Identity<C>) -> bool,
    y: Identity<B>,
    z: Identity<C>,
)
    requires
        <IdentityKind as Bind<A, B>>::bound(m, p, y),
        <IdentityKind as Bind<B, C>>::bound(y, q, z),
    ensures
        <IdentityKind as Bind<A, C>>::bound(m, bind_after::<IdentityKind, A, B, C>(p, q), z),
{
    assert(p(m.0, y) && <IdentityKind as Bind<B, C>>::bound(y, q, z));
}

/// Flattening a lifted identity gives it back.
pub proof fn identity_join_pure<A>(ma: Identity<A>, mma: Identity<Identity<A>>, out: Identity<A>)
    requires
        <IdentityKind as Applicative<Identity<A>>>::is_pure(ma, mma),
        <IdentityKind as Monad<A>>::joined(mma, out),
    ensures
        out == ma,
{
}

/// Flattening an identity of a lifted value gives it back.
pub proof fn identity_join_map_pure<A>(m: Identity<A>, mm: Identity<Identity<A>>, out: Identity<A>)
    requires
        <IdentityKind as Functor<A, Identity<A>>>::mapped(m, pure_rel::<IdentityKind, A>(), mm),
        <IdentityKind as Monad<A>>::joined(mm, out),
    ensures
        out == m,
{
}

} // verus!

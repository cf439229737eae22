//! The functor, applicative and monad laws for `Option`.

use crate::applicative::Applicative;
use crate::apply::{is_identity_fn, Apply};
use crate::function::{compose_rel, functional, same_rel, CFn};
use crate::functor::Functor;
use crate::kind_based::kind::OptionKind;
use crate::monad::{Bind, Monad};
use super::{bind_after, eval_at, is_evaluator_at, pure_rel};
use vstd::prelude::*;

verus! {

/// Mapping a relation within equality over an option leaves it unchanged.
pub proof fn option_map_identity<A>(x: Option<A>, out: Option<A>)
    requires
        <OptionKind as Functor<A, A>>::mapped(x, same_rel(), out),
    ensures
        out == x,
{
}

/// Mapping `p` then `q` over an option is mapping their composite; for functional
/// relations the two results are equal.
pub proof fn option_map_composition<A, B, C>(
    x: Option<A>,
    p: spec_fn(A, B) -> bool,
    q: spec_fn(B, C) -> bool,
    y: Option<B>,
    z: Option<C>,
    w: Option<C>,
)
    requires
        <OptionKind as Functor<A, B>>::mapped(x, p, y),
        <OptionKind as Functor<B, C>>::mapped(y, q, z),
        <OptionKind as Functor<A, C>>::mapped(x, compose_rel(p, q), w),
    ensures
        <OptionKind as Functor<A, C>>::mapped(x, compose_rel(p, q), z),
        functional(p) && functional(q) ==> w == z,
{
    if let Some(a) = x {
        let b = y->0;
        assert(p(a, b) && q(b, z->0));
        if functional(p) && functional(q) {
            let b2 = choose|b2: B| #[trigger] p(a, b2) && q(b2, w->0);
            assert(p(a, b) && p(a, b2));
            assert(q(b, z->0) && q(b, w->0));
        }
    }
}

/// Applying a lifted identity function to an option leaves it unchanged.
pub proof fn option_apply_identity<A>(v: Option<A>, f: CFn<A, A>, pf: Option<CFn<A, A>>, out: Option<A>)
    requires
        is_identity_fn(f),
        <OptionKind as Applicative<CFn<A, A>>>::is_pure(f, pf),
        <OptionKind as Apply<A, A>>::applied(v, pf, out),
    ensures
        out == v,
{
}

/// Applying a lifted function to a lifted value lifts a result of the function.
pub proof fn option_apply_homomorphism<A, B>(x: A, px: Option<A>, f: CFn<A, B>, pf: Option<CFn<A, B>>, out: Option<B>)
    requires
        <OptionKind as Applicative<A>>::is_pure(x, px),
        <OptionKind as Applicative<CFn<A, B>>>::is_pure(f, pf),
        <OptionKind as Apply<A, B>>::applied(px, pf, out),
    ensures
        exists|b: B| f.gives(x, b) && <OptionKind as Applicative<B>>::is_pure(b, out),
{
    let b = out->0;
    assert(f.gives(x, b) && <OptionKind as Applicative<B>>::is_pure(b, out));
}

/// Applying functions to a lifted value `y` is mapping evaluation at `y` over them,
/// and so is applying a lifted evaluator at `y` to them.
pub proof fn option_apply_interchange<A, B>(
    y: A,
    py: Option<A>,
    u: Option<CFn<A, B>>,
    e: CFn<CFn<A, B>, B>,
    pe: Option<CFn<CFn<A, B>, B>>,
    o1: Option<B>,
    o2: Option<B>,
)
    requires
        <OptionKind as Applicative<A>>::is_pure(y, py),
        <OptionKind as Apply<A, B>>::applied(py, u, o1),
        is_evaluator_at(e, y),
        <OptionKind as Applicative<CFn<CFn<A, B>, B>>>::is_pure(e, pe),
        <OptionKind as Apply<CFn<A, B>, B>>::applied(u, pe, o2),
    ensures
        <OptionKind as Functor<CFn<A, B>, B>>::mapped(u, eval_at(y), o1),
        <OptionKind as Functor<CFn<A, B>, B>>::mapped(u, eval_at(y), o2),
{
}

/// Applying a lifted function is mapping it.
pub proof fn option_apply_is_map<A, B>(x: Option<A>, c: CFn<A, B>, pc: Option<CFn<A, B>>, out: Option<B>)
    requires
        <OptionKind as Applicative<CFn<A, B>>>::is_pure(c, pc),
        <OptionKind as Apply<A, B>>::applied(x, pc, out),
    ensures
        <OptionKind as Functor<A, B>>::mapped(x, |a: A, b: B| c.gives(a, b), out),
{
}

/// Binding a lifted value to a function gives a result of the function on the value.
pub proof fn option_bind_left_identity<A, B>(a: A, pa: Option<A>, rel: spec_fn(A, Option<B>) -> bool, out: Option<B>)
    requires
        <OptionKind as Applicative<A>>::is_pure(a, pa),
        <OptionKind as Bind<A, B>>::bound(pa, rel, out),
    ensures
        rel(a, out),
{
}

/// Binding an option to `pure` leaves it unchanged.
pub proof fn option_bind_right_identity<A>(m: Option<A>, out: Option<A>)
    requires
        <OptionKind as Bind<A, A>>::bound(m, pure_rel::<OptionKind, A>(), out),
    ensures
        out == m,
{
}

/// Binding to `p` and then to `q` is binding to "`p` then bind to `q`".
pub proof fn option_bind_associativity<A, B, C>(
    m: Option<A>,
    p: spec_fn(A, Option<B>) -> bool,
    q: spec_fn(B, Option<C>) -> bool,
    y: Option<B>,
    z: Option<C>,
)
    requires
        <OptionKind as Bind<A, B>>::bound(m, p, y),
        <OptionKind as Bind<B, C>>::bound(y, q, z),
    ensures
        <OptionKind as Bind<A, C>>::bound(m, bind_after::<OptionKind, A, B, C>(p, q), z),
{
    if let Some(a) = m {
        assert(p(a, y) && <OptionKind as Bind<B, C>>::bound(y, q, z));
    }
}

/// Flattening a lifted option gives it back.
pub proof fn option_join_pure<A>(ma: Option<A>, mma: Option<Option<A>>, out: Option<A>)
    requires
        <OptionKind as Applicative<Option<A>>>::is_pure(ma, mma),
        <OptionKind as Monad<A>>::joined(mma, out),
    ensures
        out == ma,
{
}

/// Flattening an option of lifted values gives it back.
pub proof fn option_join_map_pure<A>(m: Option<A>, mm: Option<Option<A>>, out: Option<A>)
    requires
        <OptionKind as Functor<A, Option<A>>>::mapped(m, pure_rel::<OptionKind, A>(), mm),
        <OptionKind as Monad<A>>::joined(mm, out),
    ensures
        out == m,
{
}

} // verus!

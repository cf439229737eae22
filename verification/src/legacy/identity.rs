//! Container-style instances for [`Identity`].

use crate::applicative::Applicative as KindApplicative;
use crate::apply::Apply as KindApply;
use crate::function::CFn;
use crate::functor::Functor as KindFunctor;
pub use crate::identity::Identity;
use crate::identity::IdentityKind;
use crate::legacy::applicative::Applicative;
use crate::legacy::apply::Apply;
use crate::legacy::functor::Functor;
use crate::legacy::monad::{Bind, Monad};
use crate::monad::Bind as KindBind;
use vstd::prelude::*;

verus! {

impl<A, B> Functor<A, B> for Identity<A> {
    type Mapped = Identity<B>;

    open spec fn mapped(input: Identity<A>, rel: spec_fn(A, B) -> bool, out: Identity<B>) -> bool {
        <IdentityKind as KindFunctor<A, B>>::mapped(input, rel, out)
    }

    proof fn lemma_mapped_within(input: Identity<A>, p: spec_fn(A, B) -> bool, q: spec_fn(A, B) -> bool, out: Identity<B>) {
    }

    open spec fn map_ok(input: Identity<A>, pre: spec_fn(A) -> bool) -> bool {
        <IdentityKind as KindFunctor<A, B>>::map_ok(input, pre)
    }

    open spec fn map_runs(input: Identity<A>, pre: spec_fn(A) -> bool, out: Identity<B>) -> bool {
        <IdentityKind as KindFunctor<A, B>>::map_runs(input, pre, out)
    }

    proof fn lemma_map_ok_within(input: Identity<A>, p: spec_fn(A) -> bool, q: spec_fn(A) -> bool) {
    }

    proof fn lemma_map_ok_total(input: Identity<A>) {
    }

    proof fn lemma_map_runs_within(input: Identity<A>, p: spec_fn(A) -> bool, q: spec_fn(A) -> bool, out: Identity<B>) {
    }

    /// `Identity(a)` becomes `Identity(f(a))`.
    fn map<Func: Fn(A) -> B + 'static>(self, f: Func) -> (out: Identity<B>) {
        <IdentityKind as KindFunctor<A, B>>::map(self, f)
    }
}

impl<A: 'static, B: 'static> Apply<A, B> for Identity<A> {
    type Fns = Identity<CFn<A, B>>;

    open spec fn apply_ok(values: Identity<A>, fns: Identity<CFn<A, B>>) -> bool {
        <IdentityKind as KindApply<A, B>>::apply_ok(values, fns)
    }

    open spec fn applied(values: Identity<A>, fns: Identity<CFn<A, B>>, out: Identity<B>) -> bool {
        <IdentityKind as KindApply<A, B>>::applied(values, fns, out)
    }

    /// Calls the wrapped function on the wrapped value.
    fn apply(self, fns: Identity<CFn<A, B>>) -> (out: Identity<B>) {
        <IdentityKind as KindApply<A, B>>::apply(self, fns)
    }
}

impl<A: 'static> Applicative<A> for Identity<A> {
    open spec fn is_pure(v: A, out: Identity<A>) -> bool {
        <IdentityKind as KindApplicative<A>>::is_pure(v, out)
    }

    /// Wraps `v`.
    fn pure(v: A) -> (out: Identity<A>) {
        <IdentityKind as KindApplicative<A>>::pure(v)
    }
}

impl<A: 'static, B: 'static> Bind<A, B> for Identity<A> {
    open spec fn bound(input: Identity<A>, rel: spec_fn(A, Identity<B>) -> bool, out: Identity<B>) -> bool {
        <IdentityKind as KindBind<A, B>>::bound(input, rel, out)
    }

    proof fn lemma_bound_within(input: Identity<A>, p: spec_fn(A, Identity<B>) -> bool, q: spec_fn(A, Identity<B>) -> bool, out: Identity<B>) {
    }

    open spec fn bind_ok(input: Identity<A>, pre: spec_fn(A) -> bool) -> bool {
        <IdentityKind as KindBind<A, B>>::bind_ok(input, pre)
    }

    open spec fn bind_runs(input: Identity<A>, pre: spec_fn(A) -> bool, rel: spec_fn(A, Identity<B>) -> bool, out: Identity<B>) -> bool {
        <IdentityKind as KindBind<A, B>>::bind_runs(input, pre, rel, out)
    }

    proof fn lemma_bind_ok_within(input: Identity<A>, p: spec_fn(A) -> bool, q: spec_fn(A) -> bool) {
    }

    proof fn lemma_bind_ok_total(input: Identity<A>) {
    }

    proof fn lemma_bind_runs_within(
        input: Identity<A>,
        pp: spec_fn(A) -> bool,
        p: spec_fn(A, Identity<B>) -> bool,
        qp: spec_fn(A) -> bool,
        q: spec_fn(A, Identity<B>) -> bool,
        out: Identity<B>,
    ) {
    }

    /// Calls `f` on the wrapped value.
    fn bind<F: Fn(A) -> Identity<B> + 'static>(self, f: F) -> (out: Identity<B>) {
        <IdentityKind as KindBind<A, B>>::bind(self, f)
    }
}

impl<A: 'static> Monad<A> for Identity<A> {}

} // verus!

//! The `Identity` monad: a wrapper that adds no context to the value it holds.

use crate::applicative::Applicative;
use crate::apply::Apply;
use crate::function::CFn;
use crate::functor::Functor;
use crate::kind_based::kind::Kind;
use crate::monad::{Bind, Monad};
use vstd::prelude::*;

verus! {

/// Holds one value of type `A`.
#[derive(Debug, Clone, PartialEq, Eq, PartialOrd, Ord, Hash, Default)]
pub struct Identity<A>(pub A);

/// Marker for `Identity<_>`.
#[derive(Debug, Copy, Clone, PartialEq, Eq, PartialOrd, Ord, Hash, Default)]
pub struct IdentityKind;

impl<T> Kind<T> for IdentityKind {
    type Of = Identity<T>;
}

impl<A, B> Functor<A, B> for IdentityKind {
    open spec fn mapped(input: Identity<A>, rel: spec_fn(A, B) -> bool, out: Identity<B>) -> bool {
        rel(input.0, out.0)
    }

    proof fn lemma_mapped_within(input: Identity<A>, p: spec_fn(A, B) -> bool, q: spec_fn(A, B) -> bool, out: Identity<B>) {
    }

    open spec fn map_ok(input: Identity<A>, pre: spec_fn(A) -> bool) -> bool {
        pre(input.0)
    }

    open spec fn map_runs(input: Identity<A>, pre: spec_fn(A) -> bool, out: Identity<B>) -> bool {
        true
    }

    proof fn lemma_map_ok_within(input: Identity<A>, p: spec_fn(A) -> bool, q: spec_fn(A) -> bool) {
    }

    proof fn lemma_map_ok_total(input: Identity<A>) {
    }

    proof fn lemma_map_runs_within(input: Identity<A>, p: spec_fn(A) -> bool, q: spec_fn(A) -> bool, out: Identity<B>) {
    }

    /// `Identity(a)` becomes `Identity(func(a))`.
    fn map<F: Fn(A) -> B + 'static>(input: Identity<A>, func: F) -> (out: Identity<B>) {
        Identity(func(input.0))
    }
}

impl<A: 'static, B: 'static> Apply<A, B> for IdentityKind {
    open spec fn apply_ok(values: Identity<A>, fns: Identity<CFn<A, B>>) -> bool {
        fns.0.accepts(values.0)
    }

    open spec fn applied(values: Identity<A>, fns: Identity<CFn<A, B>>, out: Identity<B>) -> bool {
        fns.0.gives(values.0, out.0)
    }

    /// Calls the wrapped function on the wrapped value.
    fn apply(value_container: Identity<A>, function_container: Identity<CFn<A, B>>) -> (out: Identity<B>) {
        Identity(function_container.0.call(value_container.0))
    }
}

impl<T: 'static> Applicative<T> for IdentityKind {
    open spec fn is_pure(value: T, out: Identity<T>) -> bool {
        out == Identity(value)
    }

    /// Wraps `value`.
    fn pure(value: T) -> (out: Identity<T>) {
        Identity(value)
    }
}

impl<A: 'static, B: 'static> Bind<A, B> for IdentityKind {
    open spec fn bound(input: Identity<A>, rel: spec_fn(A, Identity<B>) -> bool, out: Identity<B>) -> bool {
        rel(input.0, out)
    }

    proof fn lemma_bound_within(input: Identity<A>, p: spec_fn(A, Identity<B>) -> bool, q: spec_fn(A, Identity<B>) -> bool, out: Identity<B>) {
    }

    open spec fn bind_ok(input: Identity<A>, pre: spec_fn(A) -> bool) -> bool {
        pre(input.0)
    }

    open spec fn bind_runs(input: Identity<A>, pre: spec_fn(A) -> bool, rel: spec_fn(A, Identity<B>) -> bool, out: Identity<B>) -> bool {
        true
    }

    proof fn lemma_bind_ok_within(input: Identity<A>, p: spec_fn(A) -> bool, q: spec_fn(A) -> bool) {
    }

    proof fn lemma_bind_ok_total(input: Identity<A>) {
    }

    proof fn lemma_bind_runs_within(
        input: Identity<A>,
        pp: spec_fn(A) -> bool,
        p: spec_fn(A, Identity<B>) -> bool,
        qp: spec_fn(A) -> bool,
        q: spec_fn(A, Identity<B>) -> bool,
        out: Identity<B>,
    ) {
    }

    /// Calls `func` on the wrapped value.
    fn bind<F: Fn(A) -> Identity<B> + 'static>(input: Identity<A>, func: F) -> (out: Identity<B>) {
        func(input.0)
    }
}

impl<A: 'static> Monad<A> for IdentityKind {
    open spec fn joined(mma: Identity<Identity<A>>, out: Identity<A>) -> bool {
        out == mma.0
    }

    /// Removes the outer wrapper.
    fn join(mma: Identity<Identity<A>>) -> (out: Identity<A>) {
        mma.0
    }
}

} // verus!

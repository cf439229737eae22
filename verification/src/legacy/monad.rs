//! Container-style `Bind` and `Monad`, and the `bind` and `join` helpers.

use crate::function::{always, graph, pre_of, pred_within, rel_within, same_rel};
use crate::kind_based::kind::{OptionKind, ResultKind, VecKind};
use crate::legacy::applicative::Applicative;
use crate::legacy::apply::Apply;
use crate::monad::Bind as KindBind;
use vstd::prelude::*;

verus! {

/// A container that is both [`Applicative`] and [`Bind`].
pub trait Monad<A>: Applicative<A> + Bind<A, A> {}

impl<A: 'static> Monad<A> for Option<A> {}

impl<A: 'static, E: 'static + Clone> Monad<A> for Result<A, E> {}

impl<A: 'static + Clone> Monad<A> for Vec<A> {}

/// A container whose value(s) can be fed to a function returning a container, the
/// results being combined.
pub trait Bind<A, B = A>: Apply<A, B> {
    /// `out` may result from binding `input` to a function with input/output relation `rel`.
    spec fn bound(input: Self, rel: spec_fn(A, Self::Mapped) -> bool, out: Self::Mapped) -> bool;

    /// Widening the relation keeps `bound` true.
    proof fn lemma_bound_within(input: Self, p: spec_fn(A, Self::Mapped) -> bool, q: spec_fn(A, Self::Mapped) -> bool, out: Self::Mapped)
        requires
            rel_within(p, q),
            Self::bound(input, p, out),
        ensures
            Self::bound(input, q, out),
    ;

    /// `pre` holds of every value held in `input` that `bind` feeds to the function
    /// at once (for a container that computes its values later, nothing is asked).
    spec fn bind_ok(input: Self, pre: spec_fn(A) -> bool) -> bool;

    /// Where the container computes its values later: `out` can be run wherever
    /// `input` can, `pre` holds of every value `input` may compute there, and every
    /// container `rel` relates to such a value can be run there too.
    spec fn bind_runs(input: Self, pre: spec_fn(A) -> bool, rel: spec_fn(A, Self::Mapped) -> bool, out: Self::Mapped) -> bool;

    /// Widening the precondition keeps `bind_ok` true.
    proof fn lemma_bind_ok_within(input: Self, p: spec_fn(A) -> bool, q: spec_fn(A) -> bool)
        requires
            pred_within(p, q),
            Self::bind_ok(input, p),
        ensures
            Self::bind_ok(input, q),
    ;

    /// A function that accepts everything may be bound to any container.
    proof fn lemma_bind_ok_total(input: Self)
        ensures
            Self::bind_ok(input, always()),
    ;

    /// Narrowing the precondition and widening the relation keep `bind_runs` true.
    proof fn lemma_bind_runs_within(
        input: Self,
        pp: spec_fn(A) -> bool,
        p: spec_fn(A, Self::Mapped) -> bool,
        qp: spec_fn(A) -> bool,
        q: spec_fn(A, Self::Mapped) -> bool,
        out: Self::Mapped,
    )
        requires
            pred_within(qp, pp),
            rel_within(p, q),
            Self::bind_runs(input, pp, p, out),
        ensures
            Self::bind_runs(input, qp, q, out),
    ;

    /// Feeds the value(s) of `self` to `f` and combines the resulting containers;
    /// `f` need only accept the values it is fed.
    fn bind<F: Fn(A) -> Self::Mapped + 'static>(self, f: F) -> (out: Self::Mapped)
        requires
            Self::bind_ok(self, pre_of(f)),
        ensures
            Self::bound(self, graph(f), out),
            Self::bind_runs(self, pre_of(f), graph(f), out),
    ;
}

impl<A: 'static, B: 'static> Bind<A, B> for Option<A> {
    open spec fn bound(input: Option<A>, rel: spec_fn(A, Option<B>) -> bool, out: Option<B>) -> bool {
        <OptionKind as KindBind<A, B>>::bound(input, rel, out)
    }

    proof fn lemma_bound_within(input: Option<A>, p: spec_fn(A, Option<B>) -> bool, q: spec_fn(A, Option<B>) -> bool, out: Option<B>) {
        <OptionKind as KindBind<A, B>>::lemma_bound_within(input, p, q, out);
    }

    open spec fn bind_ok(input: Option<A>, pre: spec_fn(A) -> bool) -> bool {
        <OptionKind as KindBind<A, B>>::bind_ok(input, pre)
    }

    open spec fn bind_runs(input: Option<A>, pre: spec_fn(A) -> bool, rel: spec_fn(A, Option<B>) -> bool, out: Option<B>) -> bool {
        <OptionKind as KindBind<A, B>>::bind_runs(input, pre, rel, out)
    }

    proof fn lemma_bind_ok_within(input: Option<A>, p: spec_fn(A) -> bool, q: spec_fn(A) -> bool) {
        <OptionKind as KindBind<A, B>>::lemma_bind_ok_within(input, p, q);
    }

    proof fn lemma_bind_ok_total(input: Option<A>) {
        <OptionKind as KindBind<A, B>>::lemma_bind_ok_total(input);
    }

    proof fn lemma_bind_runs_within(
        input: Option<A>,
        pp: spec_fn(A) -> bool,
        p: spec_fn(A, Option<B>) -> bool,
        qp: spec_fn(A) -> bool,
        q: spec_fn(A, Option<B>) -> bool,
        out: Option<B>,
    ) {
        <OptionKind as KindBind<A, B>>::lemma_bind_runs_within(input, pp, p, qp, q, out);
    }

    fn bind<F: Fn(A) -> Option<B> + 'static>(self, f: F) -> (out: Option<B>) {
        <OptionKind as KindBind<A, B>>::bind(self, f)
    }
}

impl<A: 'static, B: 'static, E: 'static + Clone> Bind<A, B> for Result<A, E> {
    open spec fn bound(input: Result<A, E>, rel: spec_fn(A, Result<B, E>) -> bool, out: Result<B, E>) -> bool {
        <ResultKind<E> as KindBind<A, B>>::bound(input, rel, out)
    }

    proof fn lemma_bound_within(input: Result<A, E>, p: spec_fn(A, Result<B, E>) -> bool, q: spec_fn(A, Result<B, E>) -> bool, out: Result<B, E>) {
        <ResultKind<E> as KindBind<A, B>>::lemma_bound_within(input, p, q, out);
    }

    open spec fn bind_ok(input: Result<A, E>, pre: spec_fn(A) -> bool) -> bool {
        <ResultKind<E> as KindBind<A, B>>::bind_ok(input, pre)
    }

    open spec fn bind_runs(input: Result<A, E>, pre: spec_fn(A) -> bool, rel: spec_fn(A, Result<B, E>) -> bool, out: Result<B, E>) -> bool {
        <ResultKind<E> as KindBind<A, B>>::bind_runs(input, pre, rel, out)
    }

    proof fn lemma_bind_ok_within(input: Result<A, E>, p: spec_fn(A) -> bool, q: spec_fn(A) -> bool) {
        <ResultKind<E> as KindBind<A, B>>::lemma_bind_ok_within(input, p, q);
    }

    proof fn lemma_bind_ok_total(input: Result<A, E>) {
        <ResultKind<E> as KindBind<A, B>>::lemma_bind_ok_total(input);
    }

    proof fn lemma_bind_runs_within(
        input: Result<A, E>,
        pp: spec_fn(A) -> bool,
        p: spec_fn(A, Result<B, E>) -> bool,
        qp: spec_fn(A) -> bool,
        q: spec_fn(A, Result<B, E>) -> bool,
        out: Result<B, E>,
    ) {
        <ResultKind<E> as KindBind<A, B>>::lemma_bind_runs_within(input, pp, p, qp, q, out);
    }

    fn bind<F: Fn(A) -> Result<B, E> + 'static>(self, f: F) -> (out: Result<B, E>) {
        <ResultKind<E> as KindBind<A, B>>::bind(self, f)
    }
}

impl<A: 'static + Clone, B: 'static> Bind<A, B> for Vec<A> {
    open spec fn bound(input: Vec<A>, rel: spec_fn(A, Vec<B>) -> bool, out: Vec<B>) -> bool {
        <VecKind as KindBind<A, B>>::bound(input, rel, out)
    }

    proof fn lemma_bound_within(input: Vec<A>, p: spec_fn(A, Vec<B>) -> bool, q: spec_fn(A, Vec<B>) -> bool, out: Vec<B>) {
        <VecKind as KindBind<A, B>>::lemma_bound_within(input, p, q, out);
    }

    open spec fn bind_ok(input: Vec<A>, pre: spec_fn(A) -> bool) -> bool {
        <VecKind as KindBind<A, B>>::bind_ok(input, pre)
    }

    open spec fn bind_runs(input: Vec<A>, pre: spec_fn(A) -> bool, rel: spec_fn(A, Vec<B>) -> bool, out: Vec<B>) -> bool {
        <VecKind as KindBind<A, B>>::bind_runs(input, pre, rel, out)
    }

    proof fn lemma_bind_ok_within(input: Vec<A>, p: spec_fn(A) -> bool, q: spec_fn(A) -> bool) {
        <VecKind as KindBind<A, B>>::lemma_bind_ok_within(input, p, q);
    }

    proof fn lemma_bind_ok_total(input: Vec<A>) {
        <VecKind as KindBind<A, B>>::lemma_bind_ok_total(input);
    }

    proof fn lemma_bind_runs_within(
        input: Vec<A>,
        pp: spec_fn(A) -> bool,
        p: spec_fn(A, Vec<B>) -> bool,
        qp: spec_fn(A) -> bool,
        q: spec_fn(A, Vec<B>) -> bool,
        out: Vec<B>,
    ) {
        <VecKind as KindBind<A, B>>::lemma_bind_runs_within(input, pp, p, qp, q, out);
    }

    fn bind<F: Fn(A) -> Vec<B> + 'static>(self, f: F) -> (out: Vec<B>) {
        <VecKind as KindBind<A, B>>::bind(self, f)
    }
}

/// Feeds the value(s) of `ma` to `f` (the arguments of [`Bind::bind`] in the other order).
pub fn bind<A, B, MA, MB, F>(f: F, ma: MA) -> (out: MB) where
    F: Fn(A) -> MB + 'static,
    MA: Bind<A, B, Mapped = MB>,

    requires
        MA::bind_ok(ma, pre_of(f)),
    ensures
        MA::bound(ma, graph(f), out),
        MA::bind_runs(ma, pre_of(f), graph(f), out),
{
    ma.bind(f)
}

/// Flattens a nested container by binding it to the identity function.
pub fn join<A, M, MM>(mma: MM) -> (out: M) where
    M: Bind<A, A, Mapped = M> + 'static,
    MM: Bind<M, A, Mapped = M>,

    ensures
        MM::bound(mma, same_rel(), out),
        MM::bind_runs(mma, always(), same_rel(), out),
{
    let pass = |x: M| -> (r: M)
        ensures
            r == x,
    {
        x
    };
    proof {
        assert forall|x: M| #[trigger] always::<M>()(x) implies pre_of(pass)(x) by {
        }
        MM::lemma_bind_ok_total(mma);
        MM::lemma_bind_ok_within(mma, always(), pre_of(pass));
    }
    let out = mma.bind(pass);
    proof {
        MM::lemma_bound_within(mma, graph(pass), same_rel(), out);
        MM::lemma_bind_runs_within(mma, pre_of(pass), graph(pass), always(), same_rel(), out);
    }
    out
}

} // verus!

//! Container-style `Functor`.

use crate::function::{always, graph, pre_of, pred_within, rel_within, CFn, CFnOnce};
use crate::functor::Functor as KindFunctor;
use crate::kind_based::kind::{OptionKind, ResultKind, VecKind};
use vstd::prelude::*;

verus! {

/// A container whose value(s) of type `A` can be mapped to values of type `B`;
/// `Mapped` is the same container holding `B`.
pub trait Functor<A, B = A>: Sized {
    /// The container with `B` in place of `A`.
    type Mapped;

    /// `out` may result from mapping a function with input/output relation `rel` over `input`.
    spec fn mapped(input: Self, rel: spec_fn(A, B) -> bool, out: Self::Mapped) -> bool;

    /// Widening the relation keeps `mapped` true.
    proof fn lemma_mapped_within(input: Self, p: spec_fn(A, B) -> bool, q: spec_fn(A, B) -> bool, out: Self::Mapped)
        requires
            rel_within(p, q),
            Self::mapped(input, p, out),
        ensures
            Self::mapped(input, q, out),
    ;

    /// `pre` holds of every value held in `input` that `map` calls the function on
    /// at once (for a container that computes its values later, nothing is asked).
    spec fn map_ok(input: Self, pre: spec_fn(A) -> bool) -> bool;

    /// Where the container computes its values later: `out` can be run wherever
    /// `input` can and `pre` holds of every value `input` may compute there.
    spec fn map_runs(input: Self, pre: spec_fn(A) -> bool, out: Self::Mapped) -> bool;

    /// Widening the precondition keeps `map_ok` true.
    proof fn lemma_map_ok_within(input: Self, p: spec_fn(A) -> bool, q: spec_fn(A) -> bool)
        requires
            pred_within(p, q),
            Self::map_ok(input, p),
        ensures
            Self::map_ok(input, q),
    ;

    /// A function that accepts everything may be mapped over any container.
    proof fn lemma_map_ok_total(input: Self)
        ensures
            Self::map_ok(input, always()),
    ;

    /// Narrowing the precondition keeps `map_runs` true.
    proof fn lemma_map_runs_within(input: Self, p: spec_fn(A) -> bool, q: spec_fn(A) -> bool, out: Self::Mapped)
        requires
            pred_within(q, p),
            Self::map_runs(input, p, out),
        ensures
            Self::map_runs(input, q, out),
    ;

    /// Applies `f` to the value(s) inside `self`; `f` need only accept the values it
    /// is called on.
    fn map<Func: Fn(A) -> B + 'static>(self, f: Func) -> (out: Self::Mapped)
        requires
            Self::map_ok(self, pre_of(f)),
        ensures
            Self::mapped(self, graph(f), out),
            Self::map_runs(self, pre_of(f), out),
    ;
}

impl<A, B> Functor<A, B> for Option<A> {
    type Mapped = Option<B>;

    open spec fn mapped(input: Option<A>, rel: spec_fn(A, B) -> bool, out: Option<B>) -> bool {
        <OptionKind as KindFunctor<A, B>>::mapped(input, rel, out)
    }

    proof fn lemma_mapped_within(input: Option<A>, p: spec_fn(A, B) -> bool, q: spec_fn(A, B) -> bool, out: Option<B>) {
        <OptionKind as KindFunctor<A, B>>::lemma_mapped_within(input, p, q, out);
    }

    open spec fn map_ok(input: Option<A>, pre: spec_fn(A) -> bool) -> bool {
        <OptionKind as KindFunctor<A, B>>::map_ok(input, pre)
    }

    open spec fn map_runs(input: Option<A>, pre: spec_fn(A) -> bool, out: Option<B>) -> bool {
        <OptionKind as KindFunctor<A, B>>::map_runs(input, pre, out)
    }

    proof fn lemma_map_ok_within(input: Option<A>, p: spec_fn(A) -> bool, q: spec_fn(A) -> bool) {
        <OptionKind as KindFunctor<A, B>>::lemma_map_ok_within(input, p, q);
    }

    proof fn lemma_map_ok_total(input: Option<A>) {
        <OptionKind as KindFunctor<A, B>>::lemma_map_ok_total(input);
    }

    proof fn lemma_map_runs_within(input: Option<A>, p: spec_fn(A) -> bool, q: spec_fn(A) -> bool, out: Option<B>) {
        <OptionKind as KindFunctor<A, B>>::lemma_map_runs_within(input, p, q, out);
    }

    fn map<Func: Fn(A) -> B + 'static>(self, f: Func) -> (out: Option<B>) {
        <OptionKind as KindFunctor<A, B>>::map(self, f)
    }
}

impl<A, B, E> Functor<A, B> for Result<A, E> {
    type Mapped = Result<B, E>;

    open spec fn mapped(input: Result<A, E>, rel: spec_fn(A, B) -> bool, out: Result<B, E>) -> bool {
        <ResultKind<E> as KindFunctor<A, B>>::mapped(input, rel, out)
    }

    proof fn lemma_mapped_within(input: Result<A, E>, p: spec_fn(A, B) -> bool, q: spec_fn(A, B) -> bool, out: Result<B, E>) {
        <ResultKind<E> as KindFunctor<A, B>>::lemma_mapped_within(input, p, q, out);
    }

    open spec fn map_ok(input: Result<A, E>, pre: spec_fn(A) -> bool) -> bool {
        <ResultKind<E> as KindFunctor<A, B>>::map_ok(input, pre)
    }

    open spec fn map_runs(input: Result<A, E>, pre: spec_fn(A) -> bool, out: Result<B, E>) -> bool {
        <ResultKind<E> as KindFunctor<A, B>>::map_runs(input, pre, out)
    }

    proof fn lemma_map_ok_within(input: Result<A, E>, p: spec_fn(A) -> bool, q: spec_fn(A) -> bool) {
        <ResultKind<E> as KindFunctor<A, B>>::lemma_map_ok_within(input, p, q);
    }

    proof fn lemma_map_ok_total(input: Result<A, E>) {
        <ResultKind<E> as KindFunctor<A, B>>::lemma_map_ok_total(input);
    }

    proof fn lemma_map_runs_within(input: Result<A, E>, p: spec_fn(A) -> bool, q: spec_fn(A) -> bool, out: Result<B, E>) {
        <ResultKind<E> as KindFunctor<A, B>>::lemma_map_runs_within(input, p, q, out);
    }

    fn map<Func: Fn(A) -> B + 'static>(self, f: Func) -> (out: Result<B, E>) {
        <ResultKind<E> as KindFunctor<A, B>>::map(self, f)
    }
}

impl<A, B> Functor<A, B> for Vec<A> {
    type Mapped = Vec<B>;

    open spec fn mapped(input: Vec<A>, rel: spec_fn(A, B) -> bool, out: Vec<B>) -> bool {
        <VecKind as KindFunctor<A, B>>::mapped(input, rel, out)
    }

    proof fn lemma_mapped_within(input: Vec<A>, p: spec_fn(A, B) -> bool, q: spec_fn(A, B) -> bool, out: Vec<B>) {
        <VecKind as KindFunctor<A, B>>::lemma_mapped_within(input, p, q, out);
    }

    open spec fn map_ok(input: Vec<A>, pre: spec_fn(A) -> bool) -> bool {
        <VecKind as KindFunctor<A, B>>::map_ok(input, pre)
    }

    open spec fn map_runs(input: Vec<A>, pre: spec_fn(A) -> bool, out: Vec<B>) -> bool {
        <VecKind as KindFunctor<A, B>>::map_runs(input, pre, out)
    }

    proof fn lemma_map_ok_within(input: Vec<A>, p: spec_fn(A) -> bool, q: spec_fn(A) -> bool) {
        <VecKind as KindFunctor<A, B>>::lemma_map_ok_within(input, p, q);
    }

    proof fn lemma_map_ok_total(input: Vec<A>) {
        <VecKind as KindFunctor<A, B>>::lemma_map_ok_total(input);
    }

    proof fn lemma_map_runs_within(input: Vec<A>, p: spec_fn(A) -> bool, q: spec_fn(A) -> bool, out: Vec<B>) {
        <VecKind as KindFunctor<A, B>>::lemma_map_runs_within(input, p, q, out);
    }

    fn map<Func: Fn(A) -> B + 'static>(self, f: Func) -> (out: Vec<B>) {
        <VecKind as KindFunctor<A, B>>::map(self, f)
    }
}

impl<X: 'static, A: 'static, B: 'static> Functor<A, B> for CFn<X, A> {
    /// Mapping over a repeatable function gives a once-callable one.
    type Mapped = CFnOnce<X, B>;

    /// The result accepts every argument `self` accepts, and its every result is
    /// related by `rel` to a result of `self`.
    open spec fn mapped(input: CFn<X, A>, rel: spec_fn(A, B) -> bool, out: CFnOnce<X, B>) -> bool {
        forall|x: X, b: B| #[trigger] out.gives(x, b) ==> exists|a: A| input.gives(x, a) && rel(a, b)
    }

    proof fn lemma_mapped_within(input: CFn<X, A>, p: spec_fn(A, B) -> bool, q: spec_fn(A, B) -> bool, out: CFnOnce<X, B>) {
        assert forall|x: X, b: B| #[trigger] out.gives(x, b) implies exists|a: A| input.gives(x, a) && q(a, b) by {
            let a = choose|a: A| input.gives(x, a) && p(a, b);
            assert(q(a, b));
        }
    }

    open spec fn map_ok(input: CFn<X, A>, pre: spec_fn(A) -> bool) -> bool {
        true
    }

    /// The result accepts every argument `self` accepts and on which `pre` holds of
    /// every result `self` may give.
    open spec fn map_runs(input: CFn<X, A>, pre: spec_fn(A) -> bool, out: CFnOnce<X, B>) -> bool {
        forall|x: X| input.accepts(x) && (forall|a: A| #[trigger] input.gives(x, a) ==> pre(a)) ==> #[trigger] out.accepts(x)
    }

    proof fn lemma_map_ok_within(input: CFn<X, A>, p: spec_fn(A) -> bool, q: spec_fn(A) -> bool) {
    }

    proof fn lemma_map_ok_total(input: CFn<X, A>) {
    }

    proof fn lemma_map_runs_within(input: CFn<X, A>, p: spec_fn(A) -> bool, q: spec_fn(A) -> bool, out: CFnOnce<X, B>) {
        assert forall|x: X| input.accepts(x) && (forall|a: A| #[trigger] input.gives(x, a) ==> q(a)) implies #[trigger] out.accepts(x) by {
            assert forall|a: A| #[trigger] input.gives(x, a) implies p(a) by {
                assert(q(a));
            }
        }
    }

    fn map<Func: Fn(A) -> B + 'static>(self, f: Func) -> (out: CFnOnce<X, B>) {
        let fg: Ghost<Func> = Ghost(f);
        let ig: Ghost<CFn<X, A>> = Ghost(self);
        let composed = move |x: X| -> (b: B)
            requires
                ig@.accepts(x),
                forall|a: A| #[trigger] ig@.gives(x, a) ==> call_requires(fg@, (a,)),
            ensures
                exists|a: A| ig@.gives(x, a) && call_ensures(fg@, (a,), b),
        {
            f(self.call(x))
        };
        CFnOnce::new(composed)
    }
}

impl<X: 'static, A: 'static, B: 'static> Functor<A, B> for CFnOnce<X, A> {
    type Mapped = CFnOnce<X, B>;

    /// The result accepts every argument `self` accepts, and its every result is
    /// related by `rel` to a result of `self`.
    open spec fn mapped(input: CFnOnce<X, A>, rel: spec_fn(A, B) -> bool, out: CFnOnce<X, B>) -> bool {
        forall|x: X, b: B| #[trigger] out.gives(x, b) ==> exists|a: A| input.gives(x, a) && rel(a, b)
    }

    proof fn lemma_mapped_within(input: CFnOnce<X, A>, p: spec_fn(A, B) -> bool, q: spec_fn(A, B) -> bool, out: CFnOnce<X, B>) {
        assert forall|x: X, b: B| #[trigger] out.gives(x, b) implies exists|a: A| input.gives(x, a) && q(a, b) by {
            let a = choose|a: A| input.gives(x, a) && p(a, b);
            assert(q(a, b));
        }
    }

    open spec fn map_ok(input: CFnOnce<X, A>, pre: spec_fn(A) -> bool) -> bool {
        true
    }

    /// The result accepts every argument `self` accepts and on which `pre` holds of
    /// every result `self` may give.
    open spec fn map_runs(input: CFnOnce<X, A>, pre: spec_fn(A) -> bool, out: CFnOnce<X, B>) -> bool {
        forall|x: X| input.accepts(x) && (forall|a: A| #[trigger] input.gives(x, a) ==> pre(a)) ==> #[trigger] out.accepts(x)
    }

    proof fn lemma_map_ok_within(input: CFnOnce<X, A>, p: spec_fn(A) -> bool, q: spec_fn(A) -> bool) {
    }

    proof fn lemma_map_ok_total(input: CFnOnce<X, A>) {
    }

    proof fn lemma_map_runs_within(input: CFnOnce<X, A>, p: spec_fn(A) -> bool, q: spec_fn(A) -> bool, out: CFnOnce<X, B>) {
        assert forall|x: X| input.accepts(x) && (forall|a: A| #[trigger] input.gives(x, a) ==> q(a)) implies #[trigger] out.accepts(x) by {
            assert forall|a: A| #[trigger] input.gives(x, a) implies p(a) by {
                assert(q(a));
            }
        }
    }

    fn map<Func: Fn(A) -> B + 'static>(self, f: Func) -> (out: CFnOnce<X, B>) {
        let fg: Ghost<Func> = Ghost(f);
        let ig: Ghost<CFnOnce<X, A>> = Ghost(self);
        let composed = move |x: X| -> (b: B)
            requires
                ig@.accepts(x),
                forall|a: A| #[trigger] ig@.gives(x, a) ==> call_requires(fg@, (a,)),
            ensures
                exists|a: A| ig@.gives(x, a) && call_ensures(fg@, (a,), b),
        {
            f(self.call_once(x))
        };
        CFnOnce::new(composed)
    }
}

} // verus!

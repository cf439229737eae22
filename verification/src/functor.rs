//! The `Functor` abstraction over type-constructor markers.
//!
//! `K::map(input, f)` applies `f` to the value(s) inside `input: K::Of<A>` and keeps
//! the structure. Its contract is relational: `K::mapped(input, rel, out)` says that
//! `out` is what mapping a function whose input/output relation is `rel` may produce.
//! For a closure that computes a mathematical function the result is determined.

use crate::function::{always, graph, pre_of, pred_within, rel_within, CFn, CFnOnce};
use crate::kind_based::kind::{CFnKind, CFnOnceKind, Kind, OptionKind, ResultKind, VecKind};
use vstd::prelude::*;

verus! {

/// A type constructor whose contents can be mapped over.
///
/// Laws (stated and proved in `laws`): mapping the identity leaves the
/// structure unchanged, and mapping `f` then `g` is mapping their composite.
pub trait Functor<A, B>: Kind<A> + Kind<B> + Sized {
    /// `out` may result from mapping a function with input/output relation `rel` over `input`.
    spec fn mapped(
        input: <Self as Kind<A>>::Of,
        rel: spec_fn(A, B) -> bool,
        out: <Self as Kind<B>>::Of,
    ) -> bool;

    /// Widening the relation keeps `mapped` true.
    proof fn lemma_mapped_within(
        input: <Self as Kind<A>>::Of,
        p: spec_fn(A, B) -> bool,
        q: spec_fn(A, B) -> bool,
        out: <Self as Kind<B>>::Of,
    )
        requires
            rel_within(p, q),
            Self::mapped(input, p, out),
        ensures
            Self::mapped(input, q, out),
    ;

    /// `pre` holds of every value held in `input` that `map` calls the function on
    /// at once (for a structure that computes its values later, nothing is asked).
    spec fn map_ok(input: <Self as Kind<A>>::Of, pre: spec_fn(A) -> bool) -> bool;

    /// Where the structure computes its values later: `out` can be run wherever
    /// `input` can and `pre` holds of every value `input` may compute there
    /// (for a structure that holds its values, nothing is stated).
    spec fn map_runs(input: <Self as Kind<A>>::Of, pre: spec_fn(A) -> bool, out: <Self as Kind<B>>::Of) -> bool;

    /// Widening the precondition keeps `map_ok` true.
    proof fn lemma_map_ok_within(input: <Self as Kind<A>>::Of, p: spec_fn(A) -> bool, q: spec_fn(A) -> bool)
        requires
            pred_within(p, q),
            Self::map_ok(input, p),
        ensures
            Self::map_ok(input, q),
    ;

    /// A function that accepts everything may be mapped over any structure.
    proof fn lemma_map_ok_total(input: <Self as Kind<A>>::Of)
        ensures
            Self::map_ok(input, always()),
    ;

    /// Narrowing the precondition keeps `map_runs` true.
    proof fn lemma_map_runs_within(
        input: <Self as Kind<A>>::Of,
        p: spec_fn(A) -> bool,
        q: spec_fn(A) -> bool,
        out: <Self as Kind<B>>::Of,
    )
        requires
            pred_within(q, p),
            Self::map_runs(input, p, out),
        ensures
            Self::map_runs(input, q, out),
    ;

    /// Applies `func` to the value(s) inside `input`; `func` need only accept the
    /// values it is called on.
    fn map<F: Fn(A) -> B + 'static>(input: <Self as Kind<A>>::Of, func: F) -> (out: <Self as Kind<B>>::Of)
        requires
            Self::map_ok(input, pre_of(func)),
        ensures
            Self::mapped(input, graph(func), out),
            Self::map_runs(input, pre_of(func), out),
    ;
}

impl<A, B> Functor<A, B> for OptionKind {
    open spec fn mapped(input: Option<A>, rel: spec_fn(A, B) -> bool, out: Option<B>) -> bool {
        match (input, out) {
            (Some(a), Some(b)) => rel(a, b),
            (None, None) => true,
            _ => false,
        }
    }

    proof fn lemma_mapped_within(input: Option<A>, p: spec_fn(A, B) -> bool, q: spec_fn(A, B) -> bool, out: Option<B>) {
    }

    open spec fn map_ok(input: Option<A>, pre: spec_fn(A) -> bool) -> bool {
        input matches Some(a) ==> pre(a)
    }

    open spec fn map_runs(input: Option<A>, pre: spec_fn(A) -> bool, out: Option<B>) -> bool {
        true
    }

    proof fn lemma_map_ok_within(input: Option<A>, p: spec_fn(A) -> bool, q: spec_fn(A) -> bool) {
    }

    proof fn lemma_map_ok_total(input: Option<A>) {
    }

    proof fn lemma_map_runs_within(input: Option<A>, p: spec_fn(A) -> bool, q: spec_fn(A) -> bool, out: Option<B>) {
    }

    fn map<F: Fn(A) -> B + 'static>(input: Option<A>, func: F) -> (out: Option<B>) {
        match input {
            Some(a) => Some(func(a)),
            None => None,
        }
    }
}

impl<A, B, E> Functor<A, B> for ResultKind<E> {
    open spec fn mapped(input: Result<A, E>, rel: spec_fn(A, B) -> bool, out: Result<B, E>) -> bool {
        match (input, out) {
            (Ok(a), Ok(b)) => rel(a, b),
            (Err(e1), Err(e2)) => e1 == e2,
            _ => false,
        }
    }

    proof fn lemma_mapped_within(input: Result<A, E>, p: spec_fn(A, B) -> bool, q: spec_fn(A, B) -> bool, out: Result<B, E>) {
    }

    open spec fn map_ok(input: Result<A, E>, pre: spec_fn(A) -> bool) -> bool {
        input matches Ok(a) ==> pre(a)
    }

    open spec fn map_runs(input: Result<A, E>, pre: spec_fn(A) -> bool, out: Result<B, E>) -> bool {
        true
    }

    proof fn lemma_map_ok_within(input: Result<A, E>, p: spec_fn(A) -> bool, q: spec_fn(A) -> bool) {
    }

    proof fn lemma_map_ok_total(input: Result<A, E>) {
    }

    proof fn lemma_map_runs_within(input: Result<A, E>, p: spec_fn(A) -> bool, q: spec_fn(A) -> bool, out: Result<B, E>) {
    }

    fn map<F: Fn(A) -> B + 'static>(input: Result<A, E>, func: F) -> (out: Result<B, E>) {
        match input {
            Ok(a) => Ok(func(a)),
            Err(e) => Err(e),
        }
    }
}

/// `out` is `input` with each element replaced by one related to it by `rel`.
pub open spec fn seq_mapped<A, B>(input: Seq<A>, rel: spec_fn(A, B) -> bool, out: Seq<B>) -> bool {
    &&& out.len() == input.len()
    &&& forall|i: int| 0 <= i < input.len() ==> #[trigger] rel(input[i], out[i])
}

impl<A, B> Functor<A, B> for VecKind {
    open spec fn mapped(input: Vec<A>, rel: spec_fn(A, B) -> bool, out: Vec<B>) -> bool {
        seq_mapped(input@, rel, out@)
    }

    proof fn lemma_mapped_within(input: Vec<A>, p: spec_fn(A, B) -> bool, q: spec_fn(A, B) -> bool, out: Vec<B>) {
        assert forall|i: int| 0 <= i < input@.len() implies #[trigger] q(input@[i], out@[i]) by {
            assert(p(input@[i], out@[i]));
        }
    }

    open spec fn map_ok(input: Vec<A>, pre: spec_fn(A) -> bool) -> bool {
        forall|i: int| 0 <= i < input@.len() ==> #[trigger] pre(input@[i])
    }

    open spec fn map_runs(input: Vec<A>, pre: spec_fn(A) -> bool, out: Vec<B>) -> bool {
        true
    }

    proof fn lemma_map_ok_within(input: Vec<A>, p: spec_fn(A) -> bool, q: spec_fn(A) -> bool) {
        assert forall|i: int| 0 <= i < input@.len() implies #[trigger] q(input@[i]) by {
            assert(p(input@[i]));
        }
    }

    proof fn lemma_map_ok_total(input: Vec<A>) {
    }

    proof fn lemma_map_runs_within(input: Vec<A>, p: spec_fn(A) -> bool, q: spec_fn(A) -> bool, out: Vec<B>) {
    }

    fn map<F: Fn(A) -> B + 'static>(input: Vec<A>, func: F) -> (out: Vec<B>) {
        let mut out: Vec<B> = Vec::new();
        let ghost elems = input@;
        proof {
            assert forall|i: int| 0 <= i < input@.len() implies #[trigger] call_requires(func, (input@[i],)) by {
                assert(pre_of(func)(input@[i]));
            }
        }
        for a in it: input.into_iter()
            invariant
                forall|i: int| 0 <= i < elems.len() ==> #[trigger] call_requires(func, (elems[i],)),
                it.seq() == elems,
                out@.len() == it.index(),
                forall|i: int| 0 <= i < it.index() ==> #[trigger] call_ensures(func, (elems[i],), out@[i]),
        {
            let b = func(a);
            out.push(b);
        }
        out
    }
}

/// Every result of `out` is related by `rel` to a result of `input` on the same argument.
pub open spec fn fn_mapped<X, A, B>(input: CFn<X, A>, rel: spec_fn(A, B) -> bool, out: CFn<X, B>) -> bool {
    forall|x: X, b: B| #[trigger] out.gives(x, b) ==> exists|a: A| input.gives(x, a) && rel(a, b)
}

/// `out` accepts every argument that `input` accepts and on which `pre` holds of
/// every result `input` may give.
pub open spec fn fn_map_runs<X, A, B>(input: CFn<X, A>, pre: spec_fn(A) -> bool, out: CFn<X, B>) -> bool {
    forall|x: X| input.accepts(x) && (forall|a: A| #[trigger] input.gives(x, a) ==> pre(a)) ==> #[trigger] out.accepts(x)
}

/// [`fn_map_runs`] for once-callable functions.
pub open spec fn fn_once_map_runs<X, A, B>(input: CFnOnce<X, A>, pre: spec_fn(A) -> bool, out: CFnOnce<X, B>) -> bool {
    forall|x: X| input.accepts(x) && (forall|a: A| #[trigger] input.gives(x, a) ==> pre(a)) ==> #[trigger] out.accepts(x)
}

impl<X: 'static, A: 'static, B: 'static> Functor<A, B> for CFnKind<X> {
    open spec fn mapped(input: CFn<X, A>, rel: spec_fn(A, B) -> bool, out: CFn<X, B>) -> bool {
        fn_mapped(input, rel, out)
    }

    proof fn lemma_mapped_within(input: CFn<X, A>, p: spec_fn(A, B) -> bool, q: spec_fn(A, B) -> bool, out: CFn<X, B>) {
        assert forall|x: X, b: B| #[trigger] out.gives(x, b) implies exists|a: A| input.gives(x, a) && q(a, b) by {
            let a = choose|a: A| input.gives(x, a) && p(a, b);
            assert(q(a, b));
        }
    }

    open spec fn map_ok(input: CFn<X, A>, pre: spec_fn(A) -> bool) -> bool {
        true
    }

    open spec fn map_runs(input: CFn<X, A>, pre: spec_fn(A) -> bool, out: CFn<X, B>) -> bool {
        fn_map_runs(input, pre, out)
    }

    proof fn lemma_map_ok_within(input: CFn<X, A>, p: spec_fn(A) -> bool, q: spec_fn(A) -> bool) {
    }

    proof fn lemma_map_ok_total(input: CFn<X, A>) {
    }

    proof fn lemma_map_runs_within(input: CFn<X, A>, p: spec_fn(A) -> bool, q: spec_fn(A) -> bool, out: CFn<X, B>) {
        assert forall|x: X| input.accepts(x) && (forall|a: A| #[trigger] input.gives(x, a) ==> q(a)) implies #[trigger] out.accepts(x) by {
            assert forall|a: A| #[trigger] input.gives(x, a) implies p(a) by {
                assert(q(a));
            }
        }
    }

    /// The result calls `input` and then `func` on its value; `func` need only accept
    /// the values `input` gives.
    fn map<F: Fn(A) -> B + 'static>(input: CFn<X, A>, func: F) -> (out: CFn<X, B>) {
        let fg: Ghost<F> = Ghost(func);
        let ig: Ghost<CFn<X, A>> = Ghost(input);
        let composed = move |x: X| -> (b: B)
            requires
                ig@.accepts(x),
                forall|a: A| #[trigger] ig@.gives(x, a) ==> call_requires(fg@, (a,)),
            ensures
                exists|a: A| ig@.gives(x, a) && call_ensures(fg@, (a,), b),
        {
            func(input.call(x))
        };
        CFn::new(composed)
    }
}

impl<X: 'static, A: 'static, B: 'static> Functor<A, B> for CFnOnceKind<X> {
    open spec fn mapped(input: CFnOnce<X, A>, rel: spec_fn(A, B) -> bool, out: CFnOnce<X, B>) -> bool {
        forall|x: X, b: B| #[trigger] out.gives(x, b) ==> exists|a: A| input.gives(x, a) && rel(a, b)
    }

    proof fn lemma_mapped_within(input: CFnOnce<X, A>, p: spec_fn(A, B) -> bool, q: spec_fn(A, B) -> bool, out: CFnOnce<X, B>) {
        assert forall|x: X, b: B| #[trigger] out.gives(x, b) implies exists|a: A| input.gives(x, a) && q(a, b) by {
            let a = choose|a: A| input.gives(x, a) && p(a, b);
            assert(q(a, b));
        }
    }

    open spec fn map_ok(input: CFnOnce<X, A>, pre: spec_fn(A) -> bool) -> bool {
        true
    }

    open spec fn map_runs(input: CFnOnce<X, A>, pre: spec_fn(A) -> bool, out: CFnOnce<X, B>) -> bool {
        fn_once_map_runs(input, pre, out)
    }

    proof fn lemma_map_ok_within(input: CFnOnce<X, A>, p: spec_fn(A) -> bool, q: spec_fn(A) -> bool) {
    }

    proof fn lemma_map_ok_total(input: CFnOnce<X, A>) {
    }

    proof fn lemma_map_runs_within(input: CFnOnce<X, A>, p: spec_fn(A) -> bool, q: spec_fn(A) -> bool, out: CFnOnce<X, B>) {
        assert forall|x: X| input.accepts(x) && (forall|a: A| #[trigger] input.gives(x, a) ==> q(a)) implies #[trigger] out.accepts(x) by {
            assert forall|a: A| #[trigger] input.gives(x, a) implies p(a) by {
                assert(q(a));
            }
        }
    }

    /// The result calls `input` and then `func` on its value; `func` need only accept
    /// the values `input` gives.
    fn map<F: Fn(A) -> B + 'static>(input: CFnOnce<X, A>, func: F) -> (out: CFnOnce<X, B>) {
        let fg: Ghost<F> = Ghost(func);
        let ig: Ghost<CFnOnce<X, A>> = Ghost(input);
        let composed = move |x: X| -> (b: B)
            requires
                ig@.accepts(x),
                forall|a: A| #[trigger] ig@.gives(x, a) ==> call_requires(fg@, (a,)),
            ensures
                exists|a: A| ig@.gives(x, a) && call_ensures(fg@, (a,), b),
        {
            func(input.call_once(x))
        };
        CFnOnce::new(composed)
    }
}

} // verus!

//! `Bind` (sequencing, also called `flat_map` or `>>=`) and `Monad` (`join`, which
//! flattens a nested structure).

use crate::applicative::Applicative;
use crate::apply::Apply;
use crate::function::{always, graph, pre_of, pred_within, rel_within, same_rel, CFn, CFnOnce};
use crate::kind_based::kind::{CFnKind, CFnOnceKind, Kind, OptionKind, ResultKind, VecKind};
use vstd::prelude::*;

verus! {

/// A structure whose value(s) can be fed to a function returning a new structure of
/// the same kind, the results being combined.
///
/// Laws (stated and proved in `laws`): binding a lifted value to `f` is `f` of
/// the value; binding to `pure` leaves a structure unchanged; and binding is associative.
pub trait Bind<A, B>: Apply<A, B> {
    /// `out` may result from binding `input` to a function with input/output relation `rel`.
    spec fn bound(input: <Self as Kind<A>>::Of, rel: spec_fn(A, <Self as Kind<B>>::Of) -> bool, out: <Self as Kind<B>>::Of) -> bool;

    /// Widening the relation keeps `bound` true.
    proof fn lemma_bound_within(
        input: <Self as Kind<A>>::Of,
        p: spec_fn(A, <Self as Kind<B>>::Of) -> bool,
        q: spec_fn(A, <Self as Kind<B>>::Of) -> bool,
        out: <Self as Kind<B>>::Of,
    )
        requires
            rel_within(p, q),
            Self::bound(input, p, out),
        ensures
            Self::bound(input, q, out),
    ;

    /// `pre` holds of every value held in `input` that `bind` feeds to the function
    /// at once (for a structure that computes its values later, nothing is asked).
    spec fn bind_ok(input: <Self as Kind<A>>::Of, pre: spec_fn(A) -> bool) -> bool;

    /// Where the structure computes its values later: `out` can be run wherever
    /// `input` can, `pre` holds of every value `input` may compute there, and every
    /// structure `rel` relates to such a value can be run there too (for a structure
    /// that holds its values, nothing is stated).
    spec fn bind_runs(
        input: <Self as Kind<A>>::Of,
        pre: spec_fn(A) -> bool,
        rel: spec_fn(A, <Self as Kind<B>>::Of) -> bool,
        out: <Self as Kind<B>>::Of,
    ) -> bool;

    /// Widening the precondition keeps `bind_ok` true.
    proof fn lemma_bind_ok_within(input: <Self as Kind<A>>::Of, p: spec_fn(A) -> bool, q: spec_fn(A) -> bool)
        requires
            pred_within(p, q),
            Self::bind_ok(input, p),
        ensures
            Self::bind_ok(input, q),
    ;

    /// A function that accepts everything may be bound to any structure.
    proof fn lemma_bind_ok_total(input: <Self as Kind<A>>::Of)
        ensures
            Self::bind_ok(input, always()),
    ;

    /// Narrowing the precondition and widening the relation keep `bind_runs` true.
    proof fn lemma_bind_runs_within(
        input: <Self as Kind<A>>::Of,
        pp: spec_fn(A) -> bool,
        p: spec_fn(A, <Self as Kind<B>>::Of) -> bool,
        qp: spec_fn(A) -> bool,
        q: spec_fn(A, <Self as Kind<B>>::Of) -> bool,
        out: <Self as Kind<B>>::Of,
    )
        requires
            pred_within(qp, pp),
            rel_within(p, q),
            Self::bind_runs(input, pp, p, out),
        ensures
            Self::bind_runs(input, qp, q, out),
    ;

    /// Feeds the value(s) of `input` to `func` and combines the resulting structures;
    /// `func` need only accept the values it is fed.
    fn bind<F: Fn(A) -> <Self as Kind<B>>::Of + 'static>(input: <Self as Kind<A>>::Of, func: F) -> (out: <Self as Kind<B>>::Of)
        requires
            Self::bind_ok(input, pre_of(func)),
        ensures
            Self::bound(input, graph(func), out),
            Self::bind_runs(input, pre_of(func), graph(func), out),
    ;
}

/// An [`Applicative`] that can flatten a nested structure.
///
/// Laws (stated and proved in `laws`): flattening a lifted structure gives the
/// structure back, and flattening a structure of lifted values gives it back.
pub trait Monad<A>: Applicative<A> + Kind<<Self as Kind<A>>::Of> {
    /// `out` may result from flattening `mma`.
    spec fn joined(mma: <Self as Kind<<Self as Kind<A>>::Of>>::Of, out: <Self as Kind<A>>::Of) -> bool;

    /// Flattens a nested structure.
    fn join(mma: <Self as Kind<<Self as Kind<A>>::Of>>::Of) -> (out: <Self as Kind<A>>::Of)
        ensures
            Self::joined(mma, out),
    ;
}

impl<A: 'static, B: 'static> Bind<A, B> for OptionKind {
    open spec fn bound(input: Option<A>, rel: spec_fn(A, Option<B>) -> bool, out: Option<B>) -> bool {
        match input {
            Some(a) => rel(a, out),
            None => out is None,
        }
    }

    proof fn lemma_bound_within(input: Option<A>, p: spec_fn(A, Option<B>) -> bool, q: spec_fn(A, Option<B>) -> bool, out: Option<B>) {
    }

    open spec fn bind_ok(input: Option<A>, pre: spec_fn(A) -> bool) -> bool {
        input matches Some(a) ==> pre(a)
    }

    open spec fn bind_runs(input: Option<A>, pre: spec_fn(A) -> bool, rel: spec_fn(A, Option<B>) -> bool, out: Option<B>) -> bool {
        true
    }

    proof fn lemma_bind_ok_within(input: Option<A>, p: spec_fn(A) -> bool, q: spec_fn(A) -> bool) {
    }

    proof fn lemma_bind_ok_total(input: Option<A>) {
    }

    proof fn lemma_bind_runs_within(
        input: Option<A>,
        pp: spec_fn(A) -> bool,
        p: spec_fn(A, Option<B>) -> bool,
        qp: spec_fn(A) -> bool,
        q: spec_fn(A, Option<B>) -> bool,
        out: Option<B>,
    ) {
    }

    /// `func` of the value for `Some`, `None` for `None`.
    fn bind<F: Fn(A) -> Option<B> + 'static>(input: Option<A>, func: F) -> (out: Option<B>) {
        match input {
            Some(a) => func(a),
            None => None,
        }
    }
}

impl<A: 'static, B: 'static, E: 'static + Clone> Bind<A, B> for ResultKind<E> {
    open spec fn bound(input: Result<A, E>, rel: spec_fn(A, Result<B, E>) -> bool, out: Result<B, E>) -> bool {
        match input {
            Ok(a) => rel(a, out),
            Err(e) => out == Err::<B, E>(e),
        }
    }

    proof fn lemma_bound_within(input: Result<A, E>, p: spec_fn(A, Result<B, E>) -> bool, q: spec_fn(A, Result<B, E>) -> bool, out: Result<B, E>) {
    }

    open spec fn bind_ok(input: Result<A, E>, pre: spec_fn(A) -> bool) -> bool {
        input matches Ok(a) ==> pre(a)
    }

    open spec fn bind_runs(input: Result<A, E>, pre: spec_fn(A) -> bool, rel: spec_fn(A, Result<B, E>) -> bool, out: Result<B, E>) -> bool {
        true
    }

    proof fn lemma_bind_ok_within(input: Result<A, E>, p: spec_fn(A) -> bool, q: spec_fn(A) -> bool) {
    }

    proof fn lemma_bind_ok_total(input: Result<A, E>) {
    }

    proof fn lemma_bind_runs_within(
        input: Result<A, E>,
        pp: spec_fn(A) -> bool,
        p: spec_fn(A, Result<B, E>) -> bool,
        qp: spec_fn(A) -> bool,
        q: spec_fn(A, Result<B, E>) -> bool,
        out: Result<B, E>,
    ) {
    }

    /// `func` of the value for `Ok`; an `Err` is passed on.
    fn bind<F: Fn(A) -> Result<B, E> + 'static>(input: Result<A, E>, func: F) -> (out: Result<B, E>) {
        match input {
            Ok(a) => func(a),
            Err(e) => Err(e),
        }
    }
}

/// The contents of each vector of `rows`, concatenated in order.
pub open spec fn concat_vecs<B>(rows: Seq<Vec<B>>) -> Seq<B> {
    rows.map_values(|v: Vec<B>| v@).flatten()
}

/// `out` is the concatenation of one vector related by `rel` to each element of `input`, in order.
pub open spec fn seq_bound<A, B>(input: Seq<A>, rel: spec_fn(A, Vec<B>) -> bool, out: Seq<B>) -> bool {
    exists|rows: Seq<Vec<B>>|
        #![trigger concat_vecs(rows)]
        {
            &&& rows.len() == input.len()
            &&& forall|i: int| 0 <= i < input.len() ==> #[trigger] rel(input[i], rows[i])
            &&& out == concat_vecs(rows)
        }
}

/// Appending a vector to `rows` appends its contents to their concatenation.
pub proof fn lemma_concat_vecs_push<B>(rows: Seq<Vec<B>>, v: Vec<B>)
    ensures
        concat_vecs(rows.push(v)) == concat_vecs(rows) + v@,
{
    assert(rows.push(v).map_values(|w: Vec<B>| w@) =~= rows.map_values(|w: Vec<B>| w@).push(v@));
    rows.map_values(|w: Vec<B>| w@).lemma_flatten_push(v@);
}

impl<A: 'static + Clone, B: 'static> Bind<A, B> for VecKind {
    open spec fn bound(input: Vec<A>, rel: spec_fn(A, Vec<B>) -> bool, out: Vec<B>) -> bool {
        seq_bound(input@, rel, out@)
    }

    proof fn lemma_bound_within(input: Vec<A>, p: spec_fn(A, Vec<B>) -> bool, q: spec_fn(A, Vec<B>) -> bool, out: Vec<B>) {
        let rows = choose|rows: Seq<Vec<B>>|
            #![trigger concat_vecs(rows)]
            {
                &&& rows.len() == input@.len()
                &&& forall|i: int| 0 <= i < input@.len() ==> #[trigger] p(input@[i], rows[i])
                &&& out@ == concat_vecs(rows)
            };
        assert forall|i: int| 0 <= i < input@.len() implies #[trigger] q(input@[i], rows[i]) by {
            assert(p(input@[i], rows[i]));
        }
    }

    open spec fn bind_ok(input: Vec<A>, pre: spec_fn(A) -> bool) -> bool {
        forall|i: int| 0 <= i < input@.len() ==> #[trigger] pre(input@[i])
    }

    open spec fn bind_runs(input: Vec<A>, pre: spec_fn(A) -> bool, rel: spec_fn(A, Vec<B>) -> bool, out: Vec<B>) -> bool {
        true
    }

    proof fn lemma_bind_ok_within(input: Vec<A>, p: spec_fn(A) -> bool, q: spec_fn(A) -> bool) {
        assert forall|i: int| 0 <= i < input@.len() implies #[trigger] q(input@[i]) by {
            assert(p(input@[i]));
        }
    }

    proof fn lemma_bind_ok_total(input: Vec<A>) {
    }

    proof fn lemma_bind_runs_within(
        input: Vec<A>,
        pp: spec_fn(A) -> bool,
        p: spec_fn(A, Vec<B>) -> bool,
        qp: spec_fn(A) -> bool,
        q: spec_fn(A, Vec<B>) -> bool,
        out: Vec<B>,
    ) {
    }

    /// Applies `func` to each element and concatenates the results in order.
    fn bind<F: Fn(A) -> Vec<B> + 'static>(input: Vec<A>, func: F) -> (out: Vec<B>) {
        let ghost elems = input@;
        let ghost mut rows: Seq<Vec<B>> = Seq::empty();
        let mut out: Vec<B> = Vec::new();
        proof {
            assert forall|i: int| 0 <= i < input@.len() implies #[trigger] call_requires(func, (input@[i],)) by {
                assert(pre_of(func)(input@[i]));
            }
        }
        for a in it: input.into_iter()
            invariant
                forall|i: int| 0 <= i < elems.len() ==> #[trigger] call_requires(func, (elems[i],)),
                it.seq() == elems,
                rows.len() == it.index(),
                forall|i: int| 0 <= i < it.index() ==> #[trigger] call_ensures(func, (elems[i],), rows[i]),
                out@ == concat_vecs(rows),
        {
            let mut mb = func(a);
            proof {
                lemma_concat_vecs_push(rows, mb);
                rows = rows.push(mb);
            }
            out.append(&mut mb);
        }
        assert(rows.len() == elems.len());
        assert(forall|i: int| 0 <= i < elems.len() ==> #[trigger] graph(func)(elems[i], rows[i]));
        out
    }
}

/// Calling the Kleisli composite of `input` and a function with precondition `pre`
/// and relation `rel` on `r` is allowed: `input` accepts every clone of `r`, `pre`
/// holds of every value it may give there, and every function the relation may give
/// for such a value accepts every clone of `r`.
pub open spec fn fn_bind_ok_at<R: Clone, A, B>(input: CFn<R, A>, pre: spec_fn(A) -> bool, rel: spec_fn(A, CFn<R, B>) -> bool, r: R) -> bool {
    &&& forall|r1: R| #[trigger] cloned(r, r1) ==> input.accepts(r1)
    &&& forall|r1: R, a: A| #![trigger input.gives(r1, a)] cloned(r, r1) && input.gives(r1, a) ==> pre(a)
    &&& forall|r1: R, a: A, mb: CFn<R, B>, r2: R|
        #![trigger input.gives(r1, a), rel(a, mb), cloned(r, r2)]
        cloned(r, r1) && input.gives(r1, a) && rel(a, mb) && cloned(r, r2) ==> mb.accepts(r2)
}

/// `b` may result from the Kleisli composite called on `r`.
pub open spec fn fn_bind_gives<R: Clone, A, B>(input: CFn<R, A>, rel: spec_fn(A, CFn<R, B>) -> bool, r: R, b: B) -> bool {
    exists|r1: R, a: A, mb: CFn<R, B>, r2: R|
        #![trigger input.gives(r1, a), rel(a, mb), mb.gives(r2, b)]
        cloned(r, r1) && input.gives(r1, a) && rel(a, mb) && cloned(r, r2) && mb.gives(r2, b)
}

impl<R: 'static + Clone, A: 'static, B: 'static> Bind<A, B> for CFnKind<R> {
    open spec fn bound(input: CFn<R, A>, rel: spec_fn(A, CFn<R, B>) -> bool, out: CFn<R, B>) -> bool {
        forall|r: R, b: B| #[trigger] out.gives(r, b) ==> fn_bind_gives(input, rel, r, b)
    }

    proof fn lemma_bound_within(input: CFn<R, A>, p: spec_fn(A, CFn<R, B>) -> bool, q: spec_fn(A, CFn<R, B>) -> bool, out: CFn<R, B>) {
        assert forall|r: R, b: B| #[trigger] out.gives(r, b) implies fn_bind_gives(input, q, r, b) by {
            let (r1, a, mb, r2) = choose|r1: R, a: A, mb: CFn<R, B>, r2: R|
                #![trigger input.gives(r1, a), p(a, mb), mb.gives(r2, b)]
                cloned(r, r1) && input.gives(r1, a) && p(a, mb) && cloned(r, r2) && mb.gives(r2, b);
            assert(q(a, mb));
        }
    }

    open spec fn bind_ok(input: CFn<R, A>, pre: spec_fn(A) -> bool) -> bool {
        true
    }

    open spec fn bind_runs(input: CFn<R, A>, pre: spec_fn(A) -> bool, rel: spec_fn(A, CFn<R, B>) -> bool, out: CFn<R, B>) -> bool {
        forall|r: R| fn_bind_ok_at(input, pre, rel, r) ==> #[trigger] out.accepts(r)
    }

    proof fn lemma_bind_ok_within(input: CFn<R, A>, p: spec_fn(A) -> bool, q: spec_fn(A) -> bool) {
    }

    proof fn lemma_bind_ok_total(input: CFn<R, A>) {
    }

    proof fn lemma_bind_runs_within(
        input: CFn<R, A>,
        pp: spec_fn(A) -> bool,
        p: spec_fn(A, CFn<R, B>) -> bool,
        qp: spec_fn(A) -> bool,
        q: spec_fn(A, CFn<R, B>) -> bool,
        out: CFn<R, B>,
    ) {
        assert forall|r: R| fn_bind_ok_at(input, qp, q, r) implies #[trigger] out.accepts(r) by {
            assert forall|r1: R, a: A| #![trigger input.gives(r1, a)] cloned(r, r1) && input.gives(r1, a) implies pp(a) by {
                assert(qp(a));
            }
            assert forall|r1: R, a: A, mb: CFn<R, B>, r2: R|
                #![trigger input.gives(r1, a), p(a, mb), cloned(r, r2)]
                cloned(r, r1) && input.gives(r1, a) && p(a, mb) && cloned(r, r2) implies mb.accepts(r2) by {
                assert(q(a, mb));
            }
        }
    }

    /// Kleisli composition of functions `R -> A` and `A -> (R -> B)`: the result calls
    /// `input` on a clone of its argument, feeds the value to `func`, and calls the
    /// function obtained on another clone of the argument.
    fn bind<F: Fn(A) -> CFn<R, B> + 'static>(input: CFn<R, A>, func: F) -> (out: CFn<R, B>) {
        let ig: Ghost<CFn<R, A>> = Ghost(input);
        let fg: Ghost<F> = Ghost(func);
        let composite = move |r: R| -> (b: B)
            requires
                fn_bind_ok_at(ig@, pre_of(fg@), graph(fg@), r),
            ensures
                fn_bind_gives(ig@, graph(fg@), r, b),
        {
            let r1 = r.clone();
            assert(cloned(r, r1));
            let a_val = input.call(r1);
            assert(pre_of(fg@)(a_val));
            let cfn_r_b = func(a_val);
            let r2 = r.clone();
            assert(cloned(r, r2));
            assert(graph(fg@)(a_val, cfn_r_b));
            let b = cfn_r_b.call(r2);
            b
        };
        CFn::new(composite)
    }
}

/// Calling the once-callable Kleisli composite on `r` is allowed: `input` accepts
/// every clone of `r`, `pre` holds of every value it may give there, and every
/// function the relation may give for such a value accepts `r`.
pub open spec fn fn_once_bind_ok_at<R: Clone, A, B>(input: CFnOnce<R, A>, pre: spec_fn(A) -> bool, rel: spec_fn(A, CFnOnce<R, B>) -> bool, r: R) -> bool {
    &&& forall|r1: R| #[trigger] cloned(r, r1) ==> input.accepts(r1)
    &&& forall|r1: R, a: A| #![trigger input.gives(r1, a)] cloned(r, r1) && input.gives(r1, a) ==> pre(a)
    &&& forall|r1: R, a: A, mb: CFnOnce<R, B>|
        #![trigger input.gives(r1, a), rel(a, mb)]
        cloned(r, r1) && input.gives(r1, a) && rel(a, mb) ==> mb.accepts(r)
}

/// `b` may result from the once-callable Kleisli composite called on `r`.
pub open spec fn fn_once_bind_gives<R: Clone, A, B>(input: CFnOnce<R, A>, rel: spec_fn(A, CFnOnce<R, B>) -> bool, r: R, b: B) -> bool {
    exists|r1: R, a: A, mb: CFnOnce<R, B>|
        #![trigger input.gives(r1, a), rel(a, mb), mb.gives(r, b)]
        cloned(r, r1) && input.gives(r1, a) && rel(a, mb) && mb.gives(r, b)
}

impl<R: 'static + Clone, A: 'static, B: 'static> Bind<A, B> for CFnOnceKind<R> {
    open spec fn bound(input: CFnOnce<R, A>, rel: spec_fn(A, CFnOnce<R, B>) -> bool, out: CFnOnce<R, B>) -> bool {
        forall|r: R, b: B| #[trigger] out.gives(r, b) ==> fn_once_bind_gives(input, rel, r, b)
    }

    proof fn lemma_bound_within(input: CFnOnce<R, A>, p: spec_fn(A, CFnOnce<R, B>) -> bool, q: spec_fn(A, CFnOnce<R, B>) -> bool, out: CFnOnce<R, B>) {
        assert forall|r: R, b: B| #[trigger] out.gives(r, b) implies fn_once_bind_gives(input, q, r, b) by {
            let (r1, a, mb) = choose|r1: R, a: A, mb: CFnOnce<R, B>|
                #![trigger input.gives(r1, a), p(a, mb), mb.gives(r, b)]
                cloned(r, r1) && input.gives(r1, a) && p(a, mb) && mb.gives(r, b);
            assert(q(a, mb));
        }
    }

    open spec fn bind_ok(input: CFnOnce<R, A>, pre: spec_fn(A) -> bool) -> bool {
        true
    }

    open spec fn bind_runs(input: CFnOnce<R, A>, pre: spec_fn(A) -> bool, rel: spec_fn(A, CFnOnce<R, B>) -> bool, out: CFnOnce<R, B>) -> bool {
        forall|r: R| fn_once_bind_ok_at(input, pre, rel, r) ==> #[trigger] out.accepts(r)
    }

    proof fn lemma_bind_ok_within(input: CFnOnce<R, A>, p: spec_fn(A) -> bool, q: spec_fn(A) -> bool) {
    }

    proof fn lemma_bind_ok_total(input: CFnOnce<R, A>) {
    }

    proof fn lemma_bind_runs_within(
        input: CFnOnce<R, A>,
        pp: spec_fn(A) -> bool,
        p: spec_fn(A, CFnOnce<R, B>) -> bool,
        qp: spec_fn(A) -> bool,
        q: spec_fn(A, CFnOnce<R, B>) -> bool,
        out: CFnOnce<R, B>,
    ) {
        assert forall|r: R| fn_once_bind_ok_at(input, qp, q, r) implies #[trigger] out.accepts(r) by {
            assert forall|r1: R, a: A| #![trigger input.gives(r1, a)] cloned(r, r1) && input.gives(r1, a) implies pp(a) by {
                assert(qp(a));
            }
            assert forall|r1: R, a: A, mb: CFnOnce<R, B>|
                #![trigger input.gives(r1, a), p(a, mb)]
                cloned(r, r1) && input.gives(r1, a) && p(a, mb) implies mb.accepts(r) by {
                assert(q(a, mb));
            }
        }
    }

    /// Kleisli composition for once-callable functions: the result calls `input` on a
    /// clone of its argument, feeds the value to `func`, and calls the function
    /// obtained on the argument itself.
    fn bind<F: Fn(A) -> CFnOnce<R, B> + 'static>(input: CFnOnce<R, A>, func: F) -> (out: CFnOnce<R, B>) {
        let ig: Ghost<CFnOnce<R, A>> = Ghost(input);
        let fg: Ghost<F> = Ghost(func);
        let composite = move |r: R| -> (b: B)
            requires
                fn_once_bind_ok_at(ig@, pre_of(fg@), graph(fg@), r),
            ensures
                fn_once_bind_gives(ig@, graph(fg@), r, b),
        {
            let r1 = r.clone();
            assert(cloned(r, r1));
            let a_val = input.call_once(r1);
            assert(pre_of(fg@)(a_val));
            let cfn_once_r_b = func(a_val);
            assert(graph(fg@)(a_val, cfn_once_r_b));
            cfn_once_r_b.call_once(r)
        };
        CFnOnce::new(composite)
    }
}

impl<A: 'static> Monad<A> for OptionKind {
    open spec fn joined(mma: Option<Option<A>>, out: Option<A>) -> bool {
        match mma {
            Some(ma) => out == ma,
            None => out is None,
        }
    }

    /// `Some(Some(a))` becomes `Some(a)`; `Some(None)` and `None` become `None`.
    fn join(mma: Option<Option<A>>) -> (out: Option<A>) {
        match mma {
            Some(ma) => ma,
            None => None,
        }
    }
}

impl<A: 'static, E: 'static + Clone> Monad<A> for ResultKind<E> {
    open spec fn joined(mma: Result<Result<A, E>, E>, out: Result<A, E>) -> bool {
        match mma {
            Ok(ma) => out == ma,
            Err(e) => out == Err::<A, E>(e),
        }
    }

    /// `Ok(Ok(a))` becomes `Ok(a)`; `Ok(Err(e))` and `Err(e)` become `Err(e)`.
    fn join(mma: Result<Result<A, E>, E>) -> (out: Result<A, E>) {
        match mma {
            Ok(ma) => ma,
            Err(e) => Err(e),
        }
    }
}

impl<A: 'static + Clone> Monad<A> for VecKind {
    open spec fn joined(mma: Vec<Vec<A>>, out: Vec<A>) -> bool {
        out@ == concat_vecs(mma@)
    }

    /// Concatenates the inner vectors in order.
    fn join(mma: Vec<Vec<A>>) -> (out: Vec<A>) {
        let ghost rows = mma@;
        let mut out: Vec<A> = Vec::new();
        for ma in it: mma.into_iter()
            invariant
                it.seq() == rows,
                out@ == concat_vecs(rows.take(it.index() as int)),
        {
            let mut ma = ma;
            proof {
                let i = it.index() as int;
                assert(rows.take(i + 1) =~= rows.take(i).push(ma));
                lemma_concat_vecs_push(rows.take(i), ma);
            }
            out.append(&mut ma);
        }
        assert(rows.take(rows.len() as int) =~= rows);
        out
    }
}

impl<R: 'static + Clone, A: 'static + Clone> Monad<A> for CFnKind<R> {
    /// The flattened function calls the outer function and then the function it gives,
    /// each on a clone of the argument.
    open spec fn joined(mma: CFn<R, CFn<R, A>>, out: CFn<R, A>) -> bool {
        &&& <CFnKind<R> as Bind<CFn<R, A>, A>>::bound(mma, same_rel(), out)
        &&& <CFnKind<R> as Bind<CFn<R, A>, A>>::bind_runs(mma, always(), same_rel(), out)
    }

    fn join(mma: CFn<R, CFn<R, A>>) -> (out: CFn<R, A>) {
        let pass = |ma: CFn<R, A>| -> (r: CFn<R, A>) ensures r == ma { ma };
        let out = <Self as Bind<CFn<R, A>, A>>::bind(mma, pass);
        proof {
            <Self as Bind<CFn<R, A>, A>>::lemma_bound_within(mma, graph(pass), same_rel(), out);
            <Self as Bind<CFn<R, A>, A>>::lemma_bind_runs_within(mma, pre_of(pass), graph(pass), always(), same_rel(), out);
        }
        out
    }
}

impl<R: 'static + Clone, A: 'static + Clone> Monad<A> for CFnOnceKind<R> {
    /// The flattened function calls the outer function on a clone of the argument and
    /// then the function it gives on the argument.
    open spec fn joined(mma: CFnOnce<R, CFnOnce<R, A>>, out: CFnOnce<R, A>) -> bool {
        &&& <CFnOnceKind<R> as Bind<CFnOnce<R, A>, A>>::bound(mma, same_rel(), out)
        &&& <CFnOnceKind<R> as Bind<CFnOnce<R, A>, A>>::bind_runs(mma, always(), same_rel(), out)
    }

    fn join(mma: CFnOnce<R, CFnOnce<R, A>>) -> (out: CFnOnce<R, A>) {
        let pass = |ma: CFnOnce<R, A>| -> (r: CFnOnce<R, A>) ensures r == ma { ma };
        let out = <Self as Bind<CFnOnce<R, A>, A>>::bind(mma, pass);
        proof {
            <Self as Bind<CFnOnce<R, A>, A>>::lemma_bound_within(mma, graph(pass), same_rel(), out);
            <Self as Bind<CFnOnce<R, A>, A>>::lemma_bind_runs_within(mma, pre_of(pass), graph(pass), always(), same_rel(), out);
        }
        out
    }
}

/// Feeds the value(s) of `ma` to `func` (the arguments of [`Bind::bind`] in the other order).
pub fn bind<F, A, B, FuncImpl>(func: FuncImpl, ma: <F as Kind<A>>::Of) -> (out: <F as Kind<B>>::Of) where
    F: Bind<A, B>,
    FuncImpl: Fn(A) -> <F as Kind<B>>::Of + 'static,
    A: 'static,
    B: 'static,

    requires
        F::bind_ok(ma, pre_of(func)),
    ensures
        F::bound(ma, graph(func), out),
        F::bind_runs(ma, pre_of(func), graph(func), out),
{
    F::bind(ma, func)
}

} // verus!

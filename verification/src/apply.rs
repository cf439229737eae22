//! The `Apply` abstraction: applying functions held in a structure to values held in
//! a structure of the same kind, and the lifting helpers built on it.

use crate::function::{accepts_clones, always, gives_on_clone, graph, pre_of, CFn, CFnOnce};
use crate::functor::{seq_mapped, Functor};
use crate::kind_based::kind::{CFnKind, CFnOnceKind, Kind, OptionKind, ResultKind, VecKind};
use vstd::prelude::*;

verus! {

/// A functor whose structure can hold functions that are applied to values held in
/// another structure of the same kind.
pub trait Apply<A, B>: Functor<A, B> + Kind<CFn<A, B>> {
    /// Every function in `fns` may be called on every value it is applied to.
    spec fn apply_ok(values: <Self as Kind<A>>::Of, fns: <Self as Kind<CFn<A, B>>>::Of) -> bool;

    /// `out` may result from applying `fns` to `values`.
    spec fn applied(
        values: <Self as Kind<A>>::Of,
        fns: <Self as Kind<CFn<A, B>>>::Of,
        out: <Self as Kind<B>>::Of,
    ) -> bool;

    /// Applies the function(s) in `function_container` to the value(s) in `value_container`.
    fn apply(
        value_container: <Self as Kind<A>>::Of,
        function_container: <Self as Kind<CFn<A, B>>>::Of,
    ) -> (out: <Self as Kind<B>>::Of)
        requires
            Self::apply_ok(value_container, function_container),
        ensures
            Self::applied(value_container, function_container, out),
    ;
}

impl<A: 'static, B: 'static> Apply<A, B> for OptionKind {
    open spec fn apply_ok(values: Option<A>, fns: Option<CFn<A, B>>) -> bool {
        values matches Some(a) ==> (fns matches Some(f) ==> f.accepts(a))
    }

    open spec fn applied(values: Option<A>, fns: Option<CFn<A, B>>, out: Option<B>) -> bool {
        match (values, fns) {
            (Some(a), Some(f)) => out matches Some(b) && f.gives(a, b),
            _ => out is None,
        }
    }

    fn apply(value_container: Option<A>, function_container: Option<CFn<A, B>>) -> (out: Option<B>) {
        match value_container {
            Some(a) => match function_container {
                Some(f) => Some(f.call(a)),
                None => None,
            },
            None => None,
        }
    }
}

impl<A: 'static, B: 'static, E: 'static + Clone> Apply<A, B> for ResultKind<E> {
    open spec fn apply_ok(values: Result<A, E>, fns: Result<CFn<A, B>, E>) -> bool {
        values matches Ok(a) ==> (fns matches Ok(f) ==> f.accepts(a))
    }

    /// An error in `values` comes first, then an error in `fns`.
    open spec fn applied(values: Result<A, E>, fns: Result<CFn<A, B>, E>, out: Result<B, E>) -> bool {
        match (values, fns) {
            (Err(e), _) => out == Err::<B, E>(e),
            (Ok(_), Err(e)) => out == Err::<B, E>(e),
            (Ok(a), Ok(f)) => out matches Ok(b) && f.gives(a, b),
        }
    }

    fn apply(value_container: Result<A, E>, function_container: Result<CFn<A, B>, E>) -> (out: Result<B, E>) {
        match value_container {
            Ok(a) => match function_container {
                Ok(f) => Ok(f.call(a)),
                Err(e) => Err(e),
            },
            Err(e) => Err(e),
        }
    }
}

/// `out` is the concatenation, for each function of `fns` in order, of that function
/// applied to (a clone of) each value of `values` in order.
pub open spec fn seq_applied<A: Clone, B>(values: Seq<A>, fns: Seq<CFn<A, B>>, out: Seq<B>) -> bool {
    exists|rows: Seq<Seq<B>>|
        #![trigger rows.flatten()]
        {
            &&& rows.len() == fns.len()
            &&& forall|i: int|
                0 <= i < fns.len() ==> seq_mapped(values, |a: A, b: B| gives_on_clone(fns[i], a, b), #[trigger] rows[i])
            &&& out == rows.flatten()
        }
}

impl<A: 'static + Clone, B: 'static> Apply<A, B> for VecKind {
    open spec fn apply_ok(values: Vec<A>, fns: Vec<CFn<A, B>>) -> bool {
        forall|i: int, j: int|
            0 <= i < fns@.len() && 0 <= j < values@.len() ==> accepts_clones(#[trigger] fns@[i], #[trigger] values@[j])
    }

    open spec fn applied(values: Vec<A>, fns: Vec<CFn<A, B>>, out: Vec<B>) -> bool {
        seq_applied(values@, fns@, out@)
    }

    fn apply(value_container: Vec<A>, function_container: Vec<CFn<A, B>>) -> (out: Vec<B>) {
        let ghost fns = function_container@;
        let mut out: Vec<B> = Vec::new();
        let ghost mut rows: Seq<Seq<B>> = Seq::empty();
        for f in it: function_container.into_iter()
            invariant
                it.seq() == fns,
                Self::apply_ok(value_container, function_container),
                fns == function_container@,
                rows.len() == it.index(),
                forall|i: int|
                    0 <= i < it.index() ==> seq_mapped(
                        value_container@,
                        |a: A, b: B| gives_on_clone(fns[i], a, b),
                        #[trigger] rows[i],
                    ),
                out@ == rows.flatten(),
        {
            let ghost i = it.index();
            let mut row: Vec<B> = Vec::new();
            let mut j: usize = 0;
            while j < value_container.len()
                invariant
                    0 <= i < fns.len(),
                    f == fns[i],
                    Self::apply_ok(value_container, function_container),
                    fns == function_container@,
                    j <= value_container@.len(),
                    row@.len() == j,
                    forall|k: int| 0 <= k < j ==> #[trigger] gives_on_clone(f, value_container@[k], row@[k]),
                decreases value_container@.len() - j,
            {
                let a = value_container[j].clone();
                assert(cloned(value_container@[j as int], a));
                assert(accepts_clones(fns[i], value_container@[j as int]));
                let b = f.call(a);
                assert(cloned(value_container@[j as int], a) && f.gives(a, b));
                row.push(b);
                j += 1;
            }
            proof {
                assert(seq_mapped(value_container@, |a: A, b: B| gives_on_clone(fns[i], a, b), row@));
                rows.lemma_flatten_push(row@);
                rows = rows.push(row@);
            }
            let mut row = row;
            out.append(&mut row);
        }
        proof {
            assert(rows.flatten() == out@);
        }
        out
    }
}

/// Calling the combined function on `x` is allowed: `fns` accepts every clone of `x`,
/// `values` accepts `x`, and every function `fns` may give accepts every value `values` may give.
pub open spec fn fn_apply_ok_at<X: Clone, A, B>(values: CFn<X, A>, fns: CFn<X, CFn<A, B>>, x: X) -> bool {
    &&& forall|x2: X| #[trigger] cloned(x, x2) ==> fns.accepts(x2)
    &&& values.accepts(x)
    &&& forall|x2: X, f: CFn<A, B>, a: A|
        #![trigger fns.gives(x2, f), values.gives(x, a)]
        cloned(x, x2) && fns.gives(x2, f) && values.gives(x, a) ==> f.accepts(a)
}

/// `b` may result from calling `fns` on a clone of `x`, `values` on `x`, and the
/// resulting function on the resulting value.
pub open spec fn fn_apply_gives<X: Clone, A, B>(values: CFn<X, A>, fns: CFn<X, CFn<A, B>>, x: X, b: B) -> bool {
    exists|x2: X, f: CFn<A, B>, a: A|
        #![trigger fns.gives(x2, f), values.gives(x, a)]
        cloned(x, x2) && fns.gives(x2, f) && values.gives(x, a) && f.gives(a, b)
}

impl<X: 'static + Clone, A: 'static, B: 'static> Apply<A, B> for CFnKind<X> {
    open spec fn apply_ok(values: CFn<X, A>, fns: CFn<X, CFn<A, B>>) -> bool {
        true
    }

    open spec fn applied(values: CFn<X, A>, fns: CFn<X, CFn<A, B>>, out: CFn<X, B>) -> bool {
        &&& forall|x: X| fn_apply_ok_at(values, fns, x) ==> #[trigger] out.accepts(x)
        &&& forall|x: X, b: B| #[trigger] out.gives(x, b) ==> fn_apply_gives(values, fns, x, b)
    }

    /// The result calls `function_container` and `value_container` on the same argument
    /// and applies the one result to the other.
    fn apply(value_container: CFn<X, A>, function_container: CFn<X, CFn<A, B>>) -> (out: CFn<X, B>) {
        let vg: Ghost<CFn<X, A>> = Ghost(value_container);
        let fg: Ghost<CFn<X, CFn<A, B>>> = Ghost(function_container);
        let combined = move |x_val: X| -> (b: B)
            requires
                fn_apply_ok_at(vg@, fg@, x_val),
            ensures
                fn_apply_gives(vg@, fg@, x_val, b),
        {
            let x2 = x_val.clone();
            assert(cloned(x_val, x2));
            let func_ab = function_container.call(x2);
            let val_a = value_container.call(x_val);
            let b = func_ab.call(val_a);
            assert(cloned(x_val, x2) && fg@.gives(x2, func_ab) && vg@.gives(x_val, val_a) && func_ab.gives(val_a, b));
            b
        };
        CFn::new(combined)
    }
}

/// Calling the combined once-callable function on `x` is allowed.
pub open spec fn fn_once_apply_ok_at<X: Clone, A, B>(values: CFnOnce<X, A>, fns: CFnOnce<X, CFn<A, B>>, x: X) -> bool {
    &&& forall|x2: X| #[trigger] cloned(x, x2) ==> fns.accepts(x2)
    &&& values.accepts(x)
    &&& forall|x2: X, f: CFn<A, B>, a: A|
        #![trigger fns.gives(x2, f), values.gives(x, a)]
        cloned(x, x2) && fns.gives(x2, f) && values.gives(x, a) ==> f.accepts(a)
}

/// `b` may result from the combined once-callable function called on `x`.
pub open spec fn fn_once_apply_gives<X: Clone, A, B>(values: CFnOnce<X, A>, fns: CFnOnce<X, CFn<A, B>>, x: X, b: B) -> bool {
    exists|x2: X, f: CFn<A, B>, a: A|
        #![trigger fns.gives(x2, f), values.gives(x, a)]
        cloned(x, x2) && fns.gives(x2, f) && values.gives(x, a) && f.gives(a, b)
}

impl<X: 'static + Clone, A: 'static, B: 'static> Apply<A, B> for CFnOnceKind<X> {
    open spec fn apply_ok(values: CFnOnce<X, A>, fns: CFnOnce<X, CFn<A, B>>) -> bool {
        true
    }

    open spec fn applied(values: CFnOnce<X, A>, fns: CFnOnce<X, CFn<A, B>>, out: CFnOnce<X, B>) -> bool {
        &&& forall|x: X| fn_once_apply_ok_at(values, fns, x) ==> #[trigger] out.accepts(x)
        &&& forall|x: X, b: B| #[trigger] out.gives(x, b) ==> fn_once_apply_gives(values, fns, x, b)
    }

    /// The result calls `function_container` and `value_container` once each on the
    /// same argument and applies the one result to the other.
    fn apply(value_container: CFnOnce<X, A>, function_container: CFnOnce<X, CFn<A, B>>) -> (out: CFnOnce<X, B>) {
        let vg: Ghost<CFnOnce<X, A>> = Ghost(value_container);
        let fg: Ghost<CFnOnce<X, CFn<A, B>>> = Ghost(function_container);
        let combined = move |x_val: X| -> (b: B)
            requires
                fn_once_apply_ok_at(vg@, fg@, x_val),
            ensures
                fn_once_apply_gives(vg@, fg@, x_val, b),
        {
            let x2 = x_val.clone();
            assert(cloned(x_val, x2));
            let func_ab = function_container.call_once(x2);
            let val_a = value_container.call_once(x_val);
            let b = func_ab.call(val_a);
            assert(cloned(x_val, x2) && fg@.gives(x2, func_ab) && vg@.gives(x_val, val_a) && func_ab.gives(val_a, b));
            b
        };
        CFnOnce::new(combined)
    }
}

/// Lifts a curried binary function `A -> (B -> C)` to structures: maps `func` over
/// `fa`, then applies the resulting functions to `fb`.
pub fn lift2<F, A, B, C, FuncImpl>(
    func: FuncImpl,
    fa: <F as Kind<A>>::Of,
    fb: <F as Kind<B>>::Of,
) -> (out: <F as Kind<C>>::Of) where
    F: Apply<B, C> + Functor<A, CFn<B, C>>,
    FuncImpl: Fn(A) -> CFn<B, C> + 'static,
    A: 'static,
    B: 'static,
    C: 'static,

    requires
        <F as Functor<A, CFn<B, C>>>::map_ok(fa, pre_of(func)),
        forall|mid: <F as Kind<CFn<B, C>>>::Of|
            #[trigger] <F as Functor<A, CFn<B, C>>>::mapped(fa, graph(func), mid)
                && <F as Functor<A, CFn<B, C>>>::map_runs(fa, pre_of(func), mid) ==> F::apply_ok(fb, mid),
    ensures
        exists|mid: <F as Kind<CFn<B, C>>>::Of|
            #[trigger] <F as Functor<A, CFn<B, C>>>::mapped(fa, graph(func), mid)
                && <F as Functor<A, CFn<B, C>>>::map_runs(fa, pre_of(func), mid) && F::applied(fb, mid, out),
{
    let f_b_to_c_in_f = F::map(fa, func);
    F::apply(fb, f_b_to_c_in_f)
}

/// Lifts a curried ternary function `A -> (B -> (C -> D))` to structures.
pub fn lift3<F, A, B, C, D, FuncImpl>(
    func: FuncImpl,
    fa: <F as Kind<A>>::Of,
    fb: <F as Kind<B>>::Of,
    fc: <F as Kind<C>>::Of,
) -> (out: <F as Kind<D>>::Of) where
    F: Apply<C, D> + Apply<B, CFn<C, D>> + Functor<A, CFn<B, CFn<C, D>>>,
    FuncImpl: Fn(A) -> CFn<B, CFn<C, D>> + 'static,
    A: 'static,
    B: 'static,
    C: 'static,
    D: 'static,

    requires
        <F as Functor<A, CFn<B, CFn<C, D>>>>::map_ok(fa, pre_of(func)),
        forall|mid1: <F as Kind<CFn<B, CFn<C, D>>>>::Of|
            #[trigger] <F as Functor<A, CFn<B, CFn<C, D>>>>::mapped(fa, graph(func), mid1)
                && <F as Functor<A, CFn<B, CFn<C, D>>>>::map_runs(fa, pre_of(func), mid1)
                ==> <F as Apply<B, CFn<C, D>>>::apply_ok(fb, mid1),
        forall|mid1: <F as Kind<CFn<B, CFn<C, D>>>>::Of, mid2: <F as Kind<CFn<C, D>>>::Of|
            #[trigger] <F as Functor<A, CFn<B, CFn<C, D>>>>::mapped(fa, graph(func), mid1)
                && <F as Functor<A, CFn<B, CFn<C, D>>>>::map_runs(fa, pre_of(func), mid1)
                && #[trigger] <F as Apply<B, CFn<C, D>>>::applied(fb, mid1, mid2)
                ==> <F as Apply<C, D>>::apply_ok(fc, mid2),
    ensures
        exists|mid1: <F as Kind<CFn<B, CFn<C, D>>>>::Of, mid2: <F as Kind<CFn<C, D>>>::Of|
            #[trigger] <F as Functor<A, CFn<B, CFn<C, D>>>>::mapped(fa, graph(func), mid1)
                && <F as Functor<A, CFn<B, CFn<C, D>>>>::map_runs(fa, pre_of(func), mid1)
                && #[trigger] <F as Apply<B, CFn<C, D>>>::applied(fb, mid1, mid2)
                && <F as Apply<C, D>>::applied(fc, mid2, out),
{
    let f_b_to_c_to_d_in_f = F::map(fa, func);
    let f_c_to_d_in_f = <F as Apply<B, CFn<C, D>>>::apply(fb, f_b_to_c_to_d_in_f);
    <F as Apply<C, D>>::apply(fc, f_c_to_d_in_f)
}

/// `c` accepts every argument and returns only `x`.
pub open spec fn is_constant_fn<X, Y>(c: CFn<X, Y>, y: Y) -> bool {
    &&& forall|x: X| #[trigger] c.accepts(x)
    &&& forall|x: X, r: Y| #[trigger] c.gives(x, r) ==> r == y
}

/// `c` accepts every argument and returns it unchanged.
pub open spec fn is_identity_fn<X>(c: CFn<X, X>) -> bool {
    &&& forall|x: X| #[trigger] c.accepts(x)
    &&& forall|x: X, r: X| #[trigger] c.gives(x, r) ==> r == x
}

/// Relates each value `x` to the functions that constantly return `x`.
pub open spec fn constant_rel<A, B>() -> spec_fn(A, CFn<B, A>) -> bool {
    |x: A, c: CFn<B, A>| is_constant_fn(c, x)
}

/// Relates every value to the identity functions.
pub open spec fn identity_rel<A, B>() -> spec_fn(A, CFn<B, B>) -> bool {
    |x: A, c: CFn<B, B>| is_identity_fn(c)
}

/// The function that ignores its argument and returns `x`.
fn constant_fn<A: Copy + 'static, B: 'static>(x: A) -> (r: CFn<B, A>)
    ensures
        is_constant_fn(r, x),
{
    CFn::new(move |_y: B| -> (r: A) ensures r == x { x })
}

/// The function that returns its argument; the value `_a` is ignored.
fn identity_fn_ignoring<A: 'static, B: 'static>(_a: A) -> (r: CFn<B, B>)
    ensures
        is_identity_fn(r),
{
    CFn::new(|y: B| -> (r: B) ensures r == y { y })
}

/// Combines two structures keeping the values of the first (`<*`): the same as
/// applying to `fb` the structure of constant functions obtained from `fa`.
/// For the built-in instances the precondition is proved by the lemmas of
/// [`laws::apply`](crate::laws::apply).
pub fn apply_first<F, A, B>(fa: <F as Kind<A>>::Of, fb: <F as Kind<B>>::Of) -> (out: <F as Kind<A>>::Of) where
    F: Apply<B, A> + Functor<A, CFn<B, A>>,
    A: Copy + 'static,
    B: 'static,

    requires
        forall|mid: <F as Kind<CFn<B, A>>>::Of|
            #[trigger] <F as Functor<A, CFn<B, A>>>::mapped(fa, constant_rel::<A, B>(), mid)
                && <F as Functor<A, CFn<B, A>>>::map_runs(fa, always(), mid) ==> F::apply_ok(fb, mid),
    ensures
        exists|mid: <F as Kind<CFn<B, A>>>::Of|
            #[trigger] <F as Functor<A, CFn<B, A>>>::mapped(fa, constant_rel::<A, B>(), mid)
                && <F as Functor<A, CFn<B, A>>>::map_runs(fa, always(), mid) && F::applied(fb, mid, out),
{
    let ghost konst = constant_rel::<A, B>();
    let map_fn = |x: A| -> (c: CFn<B, A>) ensures is_constant_fn(c, x) { constant_fn(x) };
    proof {
        assert forall|a: A| #[trigger] always::<A>()(a) implies pre_of(map_fn)(a) by {
        }
        <F as Functor<A, CFn<B, A>>>::lemma_map_ok_total(fa);
        <F as Functor<A, CFn<B, A>>>::lemma_map_ok_within(fa, always(), pre_of(map_fn));
        assert forall|mid: <F as Kind<CFn<B, A>>>::Of|
            #[trigger] <F as Functor<A, CFn<B, A>>>::mapped(fa, graph(map_fn), mid)
                && <F as Functor<A, CFn<B, A>>>::map_runs(fa, pre_of(map_fn), mid) implies F::apply_ok(fb, mid) by {
            <F as Functor<A, CFn<B, A>>>::lemma_mapped_within(fa, graph(map_fn), konst, mid);
            <F as Functor<A, CFn<B, A>>>::lemma_map_runs_within(fa, pre_of(map_fn), always(), mid);
        }
    }
    let out = lift2::<F, A, B, A, _>(map_fn, fa, fb);
    proof {
        let mid = choose|mid: <F as Kind<CFn<B, A>>>::Of|
            #[trigger] <F as Functor<A, CFn<B, A>>>::mapped(fa, graph(map_fn), mid)
                && <F as Functor<A, CFn<B, A>>>::map_runs(fa, pre_of(map_fn), mid) && F::applied(fb, mid, out);
        <F as Functor<A, CFn<B, A>>>::lemma_mapped_within(fa, graph(map_fn), konst, mid);
        <F as Functor<A, CFn<B, A>>>::lemma_map_runs_within(fa, pre_of(map_fn), always(), mid);
    }
    out
}

/// Combines two structures keeping the values of the second (`*>`): the same as
/// applying to `fb` the structure of identity functions obtained from `fa`.
/// For the built-in instances the precondition is proved by the lemmas of
/// [`laws::apply`](crate::laws::apply).
pub fn apply_second<F, A, B>(fa: <F as Kind<A>>::Of, fb: <F as Kind<B>>::Of) -> (out: <F as Kind<B>>::Of) where
    F: Apply<B, B> + Functor<A, CFn<B, B>>,
    A: 'static,
    B: Copy + 'static,

    requires
        forall|mid: <F as Kind<CFn<B, B>>>::Of|
            #[trigger] <F as Functor<A, CFn<B, B>>>::mapped(fa, identity_rel::<A, B>(), mid)
                && <F as Functor<A, CFn<B, B>>>::map_runs(fa, always(), mid) ==> F::apply_ok(fb, mid),
    ensures
        exists|mid: <F as Kind<CFn<B, B>>>::Of|
            #[trigger] <F as Functor<A, CFn<B, B>>>::mapped(fa, identity_rel::<A, B>(), mid)
                && <F as Functor<A, CFn<B, B>>>::map_runs(fa, always(), mid) && F::applied(fb, mid, out),
{
    let ghost ident = identity_rel::<A, B>();
    let map_fn = |x: A| -> (c: CFn<B, B>) ensures is_identity_fn(c) { identity_fn_ignoring(x) };
    proof {
        assert forall|a: A| #[trigger] always::<A>()(a) implies pre_of(map_fn)(a) by {
        }
        <F as Functor<A, CFn<B, B>>>::lemma_map_ok_total(fa);
        <F as Functor<A, CFn<B, B>>>::lemma_map_ok_within(fa, always(), pre_of(map_fn));
        assert forall|mid: <F as Kind<CFn<B, B>>>::Of|
            #[trigger] <F as Functor<A, CFn<B, B>>>::mapped(fa, graph(map_fn), mid)
                && <F as Functor<A, CFn<B, B>>>::map_runs(fa, pre_of(map_fn), mid) implies F::apply_ok(fb, mid) by {
            <F as Functor<A, CFn<B, B>>>::lemma_mapped_within(fa, graph(map_fn), ident, mid);
            <F as Functor<A, CFn<B, B>>>::lemma_map_runs_within(fa, pre_of(map_fn), always(), mid);
        }
    }
    let out = lift2::<F, A, B, B, _>(map_fn, fa, fb);
    proof {
        let mid = choose|mid: <F as Kind<CFn<B, B>>>::Of|
            #[trigger] <F as Functor<A, CFn<B, B>>>::mapped(fa, graph(map_fn), mid)
                && <F as Functor<A, CFn<B, B>>>::map_runs(fa, pre_of(map_fn), mid) && F::applied(fb, mid, out);
        <F as Functor<A, CFn<B, B>>>::lemma_mapped_within(fa, graph(map_fn), ident, mid);
        <F as Functor<A, CFn<B, B>>>::lemma_map_runs_within(fa, pre_of(map_fn), always(), mid);
    }
    out
}

} // verus!

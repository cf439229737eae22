//! Container-style `Apply` and the lifting helpers over it.

use crate::apply::{constant_rel, identity_rel, is_constant_fn, is_identity_fn, Apply as KindApply};
use crate::function::{CFn, always, graph, pre_of};
use crate::kind_based::kind::{OptionKind, ResultKind, VecKind};
use crate::legacy::functor::Functor;
use vstd::prelude::*;

verus! {

/// A container that can hold functions `A -> B` and apply them to the values of a
/// container of the same kind.
pub trait Apply<A, B = A>: Functor<A, B> {
    /// The container holding the functions.
    type Fns;

    /// Every function in `fns` may be called on every value it is applied to.
    spec fn apply_ok(values: Self, fns: Self::Fns) -> bool;

    /// `out` may result from applying `fns` to `values`.
    spec fn applied(values: Self, fns: Self::Fns, out: Self::Mapped) -> bool;

    /// Applies the function(s) in `fns` to the value(s) in `self`.
    fn apply(self, fns: Self::Fns) -> (out: Self::Mapped)
        requires
            Self::apply_ok(self, fns),
        ensures
            Self::applied(self, fns, out),
    ;
}

impl<A: 'static, B: 'static> Apply<A, B> for Option<A> {
    type Fns = Option<CFn<A, B>>;

    open spec fn apply_ok(values: Option<A>, fns: Option<CFn<A, B>>) -> bool {
        <OptionKind as KindApply<A, B>>::apply_ok(values, fns)
    }

    open spec fn applied(values: Option<A>, fns: Option<CFn<A, B>>, out: Option<B>) -> bool {
        <OptionKind as KindApply<A, B>>::applied(values, fns, out)
    }

    fn apply(self, fns: Option<CFn<A, B>>) -> (out: Option<B>) {
        <OptionKind as KindApply<A, B>>::apply(self, fns)
    }
}

impl<A: 'static, B: 'static, E: 'static + Clone> Apply<A, B> for Result<A, E> {
    type Fns = Result<CFn<A, B>, E>;

    open spec fn apply_ok(values: Result<A, E>, fns: Result<CFn<A, B>, E>) -> bool {
        <ResultKind<E> as KindApply<A, B>>::apply_ok(values, fns)
    }

    open spec fn applied(values: Result<A, E>, fns: Result<CFn<A, B>, E>, out: Result<B, E>) -> bool {
        <ResultKind<E> as KindApply<A, B>>::applied(values, fns, out)
    }

    fn apply(self, fns: Result<CFn<A, B>, E>) -> (out: Result<B, E>) {
        <ResultKind<E> as KindApply<A, B>>::apply(self, fns)
    }
}

impl<A: 'static + Clone, B: 'static> Apply<A, B> for Vec<A> {
    type Fns = Vec<CFn<A, B>>;

    open spec fn apply_ok(values: Vec<A>, fns: Vec<CFn<A, B>>) -> bool {
        <VecKind as KindApply<A, B>>::apply_ok(values, fns)
    }

    open spec fn applied(values: Vec<A>, fns: Vec<CFn<A, B>>, out: Vec<B>) -> bool {
        <VecKind as KindApply<A, B>>::applied(values, fns, out)
    }

    fn apply(self, fns: Vec<CFn<A, B>>) -> (out: Vec<B>) {
        <VecKind as KindApply<A, B>>::apply(self, fns)
    }
}

/// Lifts a curried binary function to containers: maps `func` over `fa`, then applies
/// the resulting functions to `fb`.
pub fn lift2<A, B, C: 'static, A2B2C, FB2C: 'static, FA, FB, FC>(func: A2B2C, fa: FA, fb: FB) -> (out: FC) where
    A2B2C: Fn(A) -> CFn<B, C> + 'static,
    FA: Functor<A, CFn<B, C>, Mapped = FB2C>,
    FB: Apply<B, C, Fns = FB2C, Mapped = FC>,

    requires
        FA::map_ok(fa, pre_of(func)),
        forall|mid: FB2C| #[trigger] FA::mapped(fa, graph(func), mid) && FA::map_runs(fa, pre_of(func), mid) ==> FB::apply_ok(fb, mid),
    ensures
        exists|mid: FB2C| #[trigger] FA::mapped(fa, graph(func), mid) && FA::map_runs(fa, pre_of(func), mid) && FB::applied(fb, mid, out),
{
    let f_b_to_c_in_fa = fa.map(func);
    fb.apply(f_b_to_c_in_fa)
}

/// Lifts a curried ternary function to containers.
pub fn lift3<A, B, C: 'static, D: 'static, A2B2C2D, FB2C2D: 'static, FC2D: 'static, FA, FB, FC, FD>(
    func: A2B2C2D,
    fa: FA,
    fb: FB,
    fc: FC,
) -> (out: FD) where
    A2B2C2D: Fn(A) -> CFn<B, CFn<C, D>> + 'static,
    FA: Functor<A, CFn<B, CFn<C, D>>, Mapped = FB2C2D>,
    FB: Apply<B, CFn<C, D>, Fns = FB2C2D, Mapped = FC2D>,
    FC: Apply<C, D, Fns = FC2D, Mapped = FD>,

    requires
        FA::map_ok(fa, pre_of(func)),
        forall|mid1: FB2C2D| #[trigger] FA::mapped(fa, graph(func), mid1) && FA::map_runs(fa, pre_of(func), mid1) ==> FB::apply_ok(fb, mid1),
        forall|mid1: FB2C2D, mid2: FC2D|
            #[trigger] FA::mapped(fa, graph(func), mid1) && FA::map_runs(fa, pre_of(func), mid1) && #[trigger] FB::applied(fb, mid1, mid2)
                ==> FC::apply_ok(fc, mid2),
    ensures
        exists|mid1: FB2C2D, mid2: FC2D|
            #[trigger] FA::mapped(fa, graph(func), mid1) && FA::map_runs(fa, pre_of(func), mid1) && #[trigger] FB::applied(fb, mid1, mid2)
                && FC::applied(fc, mid2, out),
{
    let f_b_to_c_to_d_in_fa = fa.map(func);
    let f_c_to_d_in_fb = fb.apply(f_b_to_c_to_d_in_fa);
    fc.apply(f_c_to_d_in_fb)
}

/// Combines two containers keeping the values of the first (`<*`).
/// For the built-in instances the precondition is proved by the lemmas of
/// [`laws::apply`](crate::laws::apply).
pub fn apply_first<A, B, FA, FB, FB2A: 'static>(fa: FA, fb: FB) -> (out: <FB as Functor<B, A>>::Mapped) where
    A: Copy + 'static,
    B: 'static,
    FA: Functor<A, CFn<B, A>, Mapped = FB2A>,
    FB: Apply<B, A, Fns = FB2A>,

    requires
        forall|mid: FB2A| #[trigger] FA::mapped(fa, constant_rel::<A, B>(), mid) && FA::map_runs(fa, always(), mid) ==> FB::apply_ok(fb, mid),
    ensures
        exists|mid: FB2A| #[trigger] FA::mapped(fa, constant_rel::<A, B>(), mid) && FA::map_runs(fa, always(), mid) && FB::applied(fb, mid, out),
{
    let map_fn = |x: A| -> (c: CFn<B, A>)
        ensures
            is_constant_fn(c, x),
    {
        CFn::new(move |_y: B| -> (r: A) ensures r == x { x })
    };
    proof {
        assert forall|a: A| #[trigger] always::<A>()(a) implies pre_of(map_fn)(a) by {
        }
        FA::lemma_map_ok_total(fa);
        FA::lemma_map_ok_within(fa, always(), pre_of(map_fn));
        assert forall|mid: FB2A| #[trigger] FA::mapped(fa, graph(map_fn), mid) && FA::map_runs(fa, pre_of(map_fn), mid) implies FB::apply_ok(fb, mid) by {
            FA::lemma_mapped_within(fa, graph(map_fn), constant_rel::<A, B>(), mid);
            FA::lemma_map_runs_within(fa, pre_of(map_fn), always(), mid);
        }
    }
    let out = lift2(map_fn, fa, fb);
    proof {
        let mid = choose|mid: FB2A| #[trigger] FA::mapped(fa, graph(map_fn), mid) && FA::map_runs(fa, pre_of(map_fn), mid) && FB::applied(fb, mid, out);
        FA::lemma_mapped_within(fa, graph(map_fn), constant_rel::<A, B>(), mid);
        FA::lemma_map_runs_within(fa, pre_of(map_fn), always(), mid);
    }
    out
}

/// Combines two containers keeping the values of the second (`*>`).
/// For the built-in instances the precondition is proved by the lemmas of
/// [`laws::apply`](crate::laws::apply).
pub fn apply_second<A, B, FA, FB, FMapResult, ResultApplyB>(fa: FA, fb: FB) -> (out: ResultApplyB) where
    A: 'static,
    B: 'static,
    FA: Functor<A, CFn<B, B>, Mapped = FMapResult>,
    FB: Apply<B, B, Fns = FMapResult, Mapped = ResultApplyB>,
    FMapResult: 'static,
    ResultApplyB: 'static,

    requires
        forall|mid: FMapResult| #[trigger] FA::mapped(fa, identity_rel::<A, B>(), mid) && FA::map_runs(fa, always(), mid) ==> FB::apply_ok(fb, mid),
    ensures
        exists|mid: FMapResult| #[trigger] FA::mapped(fa, identity_rel::<A, B>(), mid) && FA::map_runs(fa, always(), mid) && FB::applied(fb, mid, out),
{
    let map_fn = |_a: A| -> (c: CFn<B, B>)
        ensures
            is_identity_fn(c),
    {
        CFn::new(|y: B| -> (r: B) ensures r == y { y })
    };
    proof {
        assert forall|a: A| #[trigger] always::<A>()(a) implies pre_of(map_fn)(a) by {
        }
        FA::lemma_map_ok_total(fa);
        FA::lemma_map_ok_within(fa, always(), pre_of(map_fn));
        assert forall|mid: FMapResult| #[trigger] FA::mapped(fa, graph(map_fn), mid) && FA::map_runs(fa, pre_of(map_fn), mid) implies FB::apply_ok(fb, mid) by {
            FA::lemma_mapped_within(fa, graph(map_fn), identity_rel::<A, B>(), mid);
            FA::lemma_map_runs_within(fa, pre_of(map_fn), always(), mid);
        }
    }
    let mapped_fa: FMapResult = fa.map(map_fn);
    let out = fb.apply(mapped_fa);
    proof {
        FA::lemma_mapped_within(fa, graph(map_fn), identity_rel::<A, B>(), mapped_fa);
        FA::lemma_map_runs_within(fa, pre_of(map_fn), always(), mapped_fa);
    }
    out
}

} // verus!

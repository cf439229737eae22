//! The preconditions of `apply_first` and `apply_second` for the built-in
//! instances: mapping to constant or identity functions gives functions that accept
//! every value, so the structure obtained may be applied to any structure.

use crate::apply::{constant_rel, identity_rel, Apply};
use crate::function::{accepts_clones, always, CFn};
use crate::functor::Functor;
use crate::identity::{Identity, IdentityKind};
use crate::kind_based::kind::{CFnKind, CFnOnceKind, Kind, OptionKind, ResultKind, VecKind};
use crate::transformers::reader::{ReaderT, ReaderTHKTMarker};
use crate::function::CFnOnce;
use vstd::prelude::*;

verus! {

/// `apply_first` and `apply_second` may be used on any option structures `fa` and `fb`.
pub proof fn option_apply_first_second_ok<A: 'static, B: 'static>(fa: Option<A>, fb: Option<B>)
    ensures
        forall|mid: Option<CFn<B, A>>|
            #[trigger] <OptionKind as Functor<A, CFn<B, A>>>::mapped(fa, constant_rel::<A, B>(), mid)
                && <OptionKind as Functor<A, CFn<B, A>>>::map_runs(fa, always(), mid) ==> <OptionKind as Apply<B, A>>::apply_ok(fb, mid),
        forall|mid: Option<CFn<B, B>>|
            #[trigger] <OptionKind as Functor<A, CFn<B, B>>>::mapped(fa, identity_rel::<A, B>(), mid)
                && <OptionKind as Functor<A, CFn<B, B>>>::map_runs(fa, always(), mid) ==> <OptionKind as Apply<B, B>>::apply_ok(fb, mid),
{
}

/// `apply_first` and `apply_second` may be used on any result structures `fa` and `fb`.
pub proof fn result_apply_first_second_ok<A: 'static, B: 'static, E: 'static + Clone>(fa: Result<A, E>, fb: Result<B, E>)
    ensures
        forall|mid: Result<CFn<B, A>, E>|
            #[trigger] <ResultKind<E> as Functor<A, CFn<B, A>>>::mapped(fa, constant_rel::<A, B>(), mid)
                && <ResultKind<E> as Functor<A, CFn<B, A>>>::map_runs(fa, always(), mid) ==> <ResultKind<E> as Apply<B, A>>::apply_ok(fb, mid),
        forall|mid: Result<CFn<B, B>, E>|
            #[trigger] <ResultKind<E> as Functor<A, CFn<B, B>>>::mapped(fa, identity_rel::<A, B>(), mid)
                && <ResultKind<E> as Functor<A, CFn<B, B>>>::map_runs(fa, always(), mid) ==> <ResultKind<E> as Apply<B, B>>::apply_ok(fb, mid),
{
}

/// `apply_first` and `apply_second` may be used on any vec structures `fa` and `fb`.
pub proof fn vec_apply_first_second_ok<A: 'static + Clone, B: 'static + Clone>(fa: Vec<A>, fb: Vec<B>)
    ensures
        forall|mid: Vec<CFn<B, A>>|
            #[trigger] <VecKind as Functor<A, CFn<B, A>>>::mapped(fa, constant_rel::<A, B>(), mid)
                && <VecKind as Functor<A, CFn<B, A>>>::map_runs(fa, always(), mid) ==> <VecKind as Apply<B, A>>::apply_ok(fb, mid),
        forall|mid: Vec<CFn<B, B>>|
            #[trigger] <VecKind as Functor<A, CFn<B, B>>>::mapped(fa, identity_rel::<A, B>(), mid)
                && <VecKind as Functor<A, CFn<B, B>>>::map_runs(fa, always(), mid) ==> <VecKind as Apply<B, B>>::apply_ok(fb, mid),
{
    assert forall|mid: Vec<CFn<B, A>>|
        #[trigger] <VecKind as Functor<A, CFn<B, A>>>::mapped(fa, constant_rel::<A, B>(), mid)
            && <VecKind as Functor<A, CFn<B, A>>>::map_runs(fa, always(), mid) implies <VecKind as Apply<B, A>>::apply_ok(fb, mid) by {
        assert forall|i: int, j: int| 0 <= i < mid@.len() && 0 <= j < fb@.len() implies accepts_clones(#[trigger] mid@[i], #[trigger] fb@[j]) by {
            assert(constant_rel::<A, B>()(fa@[i], mid@[i]));
        }
    }
    assert forall|mid: Vec<CFn<B, B>>|
        #[trigger] <VecKind as Functor<A, CFn<B, B>>>::mapped(fa, identity_rel::<A, B>(), mid)
            && <VecKind as Functor<A, CFn<B, B>>>::map_runs(fa, always(), mid) implies <VecKind as Apply<B, B>>::apply_ok(fb, mid) by {
        assert forall|i: int, j: int| 0 <= i < mid@.len() && 0 <= j < fb@.len() implies accepts_clones(#[trigger] mid@[i], #[trigger] fb@[j]) by {
            assert(identity_rel::<A, B>()(fa@[i], mid@[i]));
        }
    }
}

/// `apply_first` and `apply_second` may be used on any identity structures `fa` and `fb`.
pub proof fn identity_apply_first_second_ok<A: 'static, B: 'static>(fa: Identity<A>, fb: Identity<B>)
    ensures
        forall|mid: Identity<CFn<B, A>>|
            #[trigger] <IdentityKind as Functor<A, CFn<B, A>>>::mapped(fa, constant_rel::<A, B>(), mid)
                && <IdentityKind as Functor<A, CFn<B, A>>>::map_runs(fa, always(), mid) ==> <IdentityKind as Apply<B, A>>::apply_ok(fb, mid),
        forall|mid: Identity<CFn<B, B>>|
            #[trigger] <IdentityKind as Functor<A, CFn<B, B>>>::mapped(fa, identity_rel::<A, B>(), mid)
                && <IdentityKind as Functor<A, CFn<B, B>>>::map_runs(fa, always(), mid) ==> <IdentityKind as Apply<B, B>>::apply_ok(fb, mid),
{
}

/// `apply_first` and `apply_second` may be used on any fn structures `fa` and `fb`.
pub proof fn fn_apply_first_second_ok<X: 'static + Clone, A: 'static, B: 'static>(fa: CFn<X, A>, fb: CFn<X, B>)
    ensures
        forall|mid: CFn<X, CFn<B, A>>|
            #[trigger] <CFnKind<X> as Functor<A, CFn<B, A>>>::mapped(fa, constant_rel::<A, B>(), mid)
                && <CFnKind<X> as Functor<A, CFn<B, A>>>::map_runs(fa, always(), mid) ==> <CFnKind<X> as Apply<B, A>>::apply_ok(fb, mid),
        forall|mid: CFn<X, CFn<B, B>>|
            #[trigger] <CFnKind<X> as Functor<A, CFn<B, B>>>::mapped(fa, identity_rel::<A, B>(), mid)
                && <CFnKind<X> as Functor<A, CFn<B, B>>>::map_runs(fa, always(), mid) ==> <CFnKind<X> as Apply<B, B>>::apply_ok(fb, mid),
{
}

/// `apply_first` and `apply_second` may be used on any fn once structures `fa` and `fb`.
pub proof fn fn_once_apply_first_second_ok<X: 'static + Clone, A: 'static, B: 'static>(fa: CFnOnce<X, A>, fb: CFnOnce<X, B>)
    ensures
        forall|mid: CFnOnce<X, CFn<B, A>>|
            #[trigger] <CFnOnceKind<X> as Functor<A, CFn<B, A>>>::mapped(fa, constant_rel::<A, B>(), mid)
                && <CFnOnceKind<X> as Functor<A, CFn<B, A>>>::map_runs(fa, always(), mid) ==> <CFnOnceKind<X> as Apply<B, A>>::apply_ok(fb, mid),
        forall|mid: CFnOnce<X, CFn<B, B>>|
            #[trigger] <CFnOnceKind<X> as Functor<A, CFn<B, B>>>::mapped(fa, identity_rel::<A, B>(), mid)
                && <CFnOnceKind<X> as Functor<A, CFn<B, B>>>::map_runs(fa, always(), mid) ==> <CFnOnceKind<X> as Apply<B, B>>::apply_ok(fb, mid),
{
}

/// `apply_first` and `apply_second` may be used on any readers `fa` and `fb`.
pub proof fn reader_apply_first_second_ok<R: Clone + 'static, MM: 'static, A: 'static, B: 'static>(
    fa: ReaderT<R, <MM as Kind<A>>::Of, A>,
    fb: ReaderT<R, <MM as Kind<B>>::Of, B>,
) where
    MM: Apply<B, A> + Apply<B, B> + Functor<A, CFn<B, A>> + Functor<A, CFn<B, B>>,

    ensures
        forall|mid: ReaderT<R, <MM as Kind<CFn<B, A>>>::Of, CFn<B, A>>|
            #[trigger] <ReaderTHKTMarker<R, MM> as Functor<A, CFn<B, A>>>::mapped(fa, constant_rel::<A, B>(), mid)
                && <ReaderTHKTMarker<R, MM> as Functor<A, CFn<B, A>>>::map_runs(fa, always(), mid)
                ==> <ReaderTHKTMarker<R, MM> as Apply<B, A>>::apply_ok(fb, mid),
        forall|mid: ReaderT<R, <MM as Kind<CFn<B, B>>>::Of, CFn<B, B>>|
            #[trigger] <ReaderTHKTMarker<R, MM> as Functor<A, CFn<B, B>>>::mapped(fa, identity_rel::<A, B>(), mid)
                && <ReaderTHKTMarker<R, MM> as Functor<A, CFn<B, B>>>::map_runs(fa, always(), mid)
                ==> <ReaderTHKTMarker<R, MM> as Apply<B, B>>::apply_ok(fb, mid),
{
}

} // verus!

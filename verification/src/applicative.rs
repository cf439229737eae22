//! The `Applicative` abstraction: lifting a plain value into a structure (`pure`),
//! and `lift_a1`, which maps a function by lifting it and applying it.

use crate::apply::Apply;
use crate::function::{wraps, CFn, CFnOnce};
use crate::kind_based::kind::{CFnKind, CFnOnceKind, Kind, OptionKind, ResultKind, VecKind};
use vstd::prelude::*;

verus! {

/// An [`Apply`] structure into which plain values can be lifted.
///
/// Laws (stated and proved in `laws`): applying a lifted identity function
/// leaves a structure unchanged; applying a lifted function to a lifted value is
/// lifting the function's result; and mapping is applying a lifted function.
pub trait Applicative<T>: Apply<T, T> {
    /// `out` may be `value` lifted into the structure.
    spec fn is_pure(value: T, out: <Self as Kind<T>>::Of) -> bool;

    /// Lifts `value` into the structure.
    fn pure(value: T) -> (out: <Self as Kind<T>>::Of)
        ensures
            Self::is_pure(value, out),
    ;
}

impl<T: 'static> Applicative<T> for OptionKind {
    open spec fn is_pure(value: T, out: Option<T>) -> bool {
        out == Some(value)
    }

    /// Lifts `value` into `Some(value)`.
    fn pure(value: T) -> (out: Option<T>) {
        Some(value)
    }
}

impl<T: 'static, E: 'static + Clone> Applicative<T> for ResultKind<E> {
    open spec fn is_pure(value: T, out: Result<T, E>) -> bool {
        out == Ok::<T, E>(value)
    }

    /// Lifts `value` into `Ok(value)`.
    fn pure(value: T) -> (out: Result<T, E>) {
        Ok(value)
    }
}

impl<T: 'static + Clone> Applicative<T> for VecKind {
    open spec fn is_pure(value: T, out: Vec<T>) -> bool {
        out@ == seq![value]
    }

    /// Lifts `value` into the one-element vector `vec![value]`.
    fn pure(value: T) -> (out: Vec<T>) {
        let mut out = Vec::new();
        out.push(value);
        out
    }
}

impl<X: 'static + Clone, T: 'static + Clone> Applicative<T> for CFnKind<X> {
    open spec fn is_pure(value: T, out: CFn<X, T>) -> bool {
        &&& forall|x: X| #[trigger] out.accepts(x)
        &&& forall|x: X, t: T| #[trigger] out.gives(x, t) ==> cloned(value, t)
    }

    /// Lifts `value` into the function that ignores its argument and returns a clone of `value`.
    fn pure(value: T) -> (out: CFn<X, T>) {
        let vg: Ghost<T> = Ghost(value);
        let constant = move |_x: X| -> (t: T)
            ensures
                cloned(vg@, t),
        {
            value.clone()
        };
        CFn::new(constant)
    }
}

impl<X: 'static + Clone, T: 'static + Clone> Applicative<T> for CFnOnceKind<X> {
    open spec fn is_pure(value: T, out: CFnOnce<X, T>) -> bool {
        &&& forall|x: X| #[trigger] out.accepts(x)
        &&& forall|x: X, t: T| #[trigger] out.gives(x, t) ==> cloned(value, t)
    }

    /// Lifts `value` into the once-callable function that ignores its argument and
    /// returns a clone of `value`.
    fn pure(value: T) -> (out: CFnOnce<X, T>) {
        let vg: Ghost<T> = Ghost(value);
        let constant = move |_x: X| -> (t: T)
            ensures
                cloned(vg@, t),
        {
            value.clone()
        };
        CFnOnce::new(constant)
    }
}

/// Maps `func` over `fa` by lifting `CFn::new(func)` with `pure` and applying it.
pub fn lift_a1<F, A, B, FuncImpl>(func: FuncImpl, fa: <F as Kind<A>>::Of) -> (out: <F as Kind<B>>::Of) where
    F: Applicative<CFn<A, B>> + Apply<A, B>,
    FuncImpl: Fn(A) -> B + 'static,
    A: 'static,
    B: 'static,

    requires
        forall|c: CFn<A, B>, pf: <F as Kind<CFn<A, B>>>::Of|
            wraps(c, func) && #[trigger] F::is_pure(c, pf) ==> <F as Apply<A, B>>::apply_ok(fa, pf),
    ensures
        exists|c: CFn<A, B>, pf: <F as Kind<CFn<A, B>>>::Of|
            wraps(c, func) && #[trigger] F::is_pure(c, pf) && <F as Apply<A, B>>::applied(fa, pf, out),
{
    let f_in_context = F::pure(CFn::new(func));
    <F as Apply<A, B>>::apply(fa, f_in_context)
}

} // verus!

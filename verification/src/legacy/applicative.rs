//! Container-style `Applicative`.

use crate::applicative::Applicative as KindApplicative;
use crate::kind_based::kind::{OptionKind, ResultKind, VecKind};
use crate::legacy::apply::Apply;
use vstd::prelude::*;

verus! {

/// A container into which a plain value can be lifted.
pub trait Applicative<A>: Apply<A, A> {
    /// `out` may be `v` lifted into the container.
    spec fn is_pure(v: A, out: Self) -> bool;

    /// Lifts `v` into the container.
    fn pure(v: A) -> (out: Self)
        ensures
            Self::is_pure(v, out),
    ;
}

impl<A: 'static> Applicative<A> for Option<A> {
    open spec fn is_pure(v: A, out: Option<A>) -> bool {
        <OptionKind as KindApplicative<A>>::is_pure(v, out)
    }

    /// Lifts `v` into `Some(v)`.
    fn pure(v: A) -> (out: Option<A>) {
        <OptionKind as KindApplicative<A>>::pure(v)
    }
}

impl<A: 'static, E: 'static + Clone> Applicative<A> for Result<A, E> {
    open spec fn is_pure(v: A, out: Result<A, E>) -> bool {
        <ResultKind<E> as KindApplicative<A>>::is_pure(v, out)
    }

    /// Lifts `v` into `Ok(v)`.
    fn pure(v: A) -> (out: Result<A, E>) {
        <ResultKind<E> as KindApplicative<A>>::pure(v)
    }
}

impl<A: 'static + Clone> Applicative<A> for Vec<A> {
    open spec fn is_pure(v: A, out: Vec<A>) -> bool {
        <VecKind as KindApplicative<A>>::is_pure(v, out)
    }

    /// Lifts `v` into `vec![v]`.
    fn pure(v: A) -> (out: Vec<A>) {
        <VecKind as KindApplicative<A>>::pure(v)
    }
}

} // verus!

//! Markers for type constructors.
//!
//! `K: Kind<Arg>` says that the marker `K`, applied to the type `Arg`, is the concrete
//! type `K::Of` (for example `<OptionKind as Kind<i32>>::Of` is `Option<i32>`).

use crate::function::{CFn, CFnOnce};
use core::marker::PhantomData;
use vstd::prelude::*;

verus! {

/// A type constructor applied to the argument `Arg`.
pub trait Kind<Arg> {
    /// The concrete type obtained by applying the constructor to `Arg`.
    type Of;
}

/// A type constructor of one argument; every [`Kind`] is one.
pub trait Kind1<Arg>: Kind<Arg> {}

impl<K: Kind<Arg>, Arg> Kind1<Arg> for K {}

/// Marker for `Option<_>`.
#[derive(Debug, Copy, Clone, PartialEq, Eq, PartialOrd, Ord, Hash, Default)]
pub struct OptionKind;

impl<Arg> Kind<Arg> for OptionKind {
    type Of = Option<Arg>;
}

/// Marker for `Vec<_>`.
#[derive(Debug, Copy, Clone, PartialEq, Eq, PartialOrd, Ord, Hash, Default)]
pub struct VecKind;

impl<Arg> Kind<Arg> for VecKind {
    type Of = Vec<Arg>;
}

/// Marker for `Result<_, E>` with the error type `E` fixed.
#[derive(Debug, Default)]
pub struct ResultKind<E>(pub PhantomData<E>);

impl<E> ResultKind<E> {
    /// Creates the marker.
    pub fn new() -> (r: Self)
        ensures
            r == ResultKind(PhantomData::<E>),
    {
        ResultKind(PhantomData)
    }
}

impl<E, Arg> Kind<Arg> for ResultKind<E> {
    type Of = Result<Arg, E>;
}

/// Marker for `CFn<X, _>`: functions with the fixed input type `X`.
#[derive(Default)]
pub struct CFnKind<X>(pub PhantomData<X>);

impl<X, Output> Kind<Output> for CFnKind<X> {
    type Of = CFn<X, Output>;
}

/// Marker for `CFnOnce<X, _>`: once-callable functions with the fixed input type `X`.
#[derive(Default)]
pub struct CFnOnceKind<X>(pub PhantomData<X>);

impl<X, Output> Kind<Output> for CFnOnceKind<X> {
    type Of = CFnOnce<X, Output>;
}

} // verus!

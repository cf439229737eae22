//! The laws of the abstractions, stated over the relational contracts of each
//! instance and proved.
//!
//! A closure enters the contracts through its input/output relation, so the laws
//! are stated for relations: "mapping the identity" is mapping a relation within
//! equality, and "mapping `g` after `f`" is mapping their relational composite.
//! Where a relation is functional (the closure computes a function) the result is
//! unique, which gives the equational form of each law.

pub mod apply;
pub mod contents;
pub mod functions;
pub mod identity;
pub mod option;
pub mod profunctor;
pub mod reader;
pub mod result;
pub mod vec;

use crate::applicative::Applicative;
use crate::function::{always, CFn};
use crate::kind_based::kind::Kind;
use crate::monad::Bind;
use vstd::prelude::*;

verus! {

/// Relates a value to its lifts into the structure of the marker `K`.
pub open spec fn pure_rel<K: Applicative<A>, A>() -> spec_fn(A, <K as Kind<A>>::Of) -> bool {
    |a: A, ma: <K as Kind<A>>::Of| K::is_pure(a, ma)
}

/// Relates a function to the results of calling it on `y`.
pub open spec fn eval_at<A, B>(y: A) -> spec_fn(CFn<A, B>, B) -> bool {
    |f: CFn<A, B>, b: B| f.gives(y, b)
}

/// `e` accepts exactly the functions that accept `y`, and gives what they give on `y`.
pub open spec fn is_evaluator_at<A, B>(e: CFn<CFn<A, B>, B>, y: A) -> bool {
    &&& forall|f: CFn<A, B>| #[trigger] e.accepts(f) == f.accepts(y)
    &&& forall|f: CFn<A, B>, b: B| #[trigger] e.gives(f, b) == f.gives(y, b)
}

/// Relates a value `a` to the results of binding, with the marker `K`, a structure
/// related to `a` by `p` to a function with relation `q` that accepts every value.
pub open spec fn bind_after<K: Bind<B, C>, A, B, C>(
    p: spec_fn(A, <K as Kind<B>>::Of) -> bool,
    q: spec_fn(B, <K as Kind<C>>::Of) -> bool,
) -> spec_fn(A, <K as Kind<C>>::Of) -> bool {
    |a: A, mc: <K as Kind<C>>::Of|
        exists|mb: <K as Kind<B>>::Of| #[trigger] p(a, mb) && K::bound(mb, q, mc) && K::bind_runs(mb, always(), q, mc)
}

/// Cloning a `T` gives back an equal value (as for integers and other `Copy` data).
pub open spec fn clone_exact<T: Clone>() -> bool {
    forall|x: T, y: T| #[trigger] cloned(x, y) ==> y == x
}

} // verus!

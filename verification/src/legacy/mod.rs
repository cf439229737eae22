//! The container-style traits: `Functor`, `Apply`, `Applicative`, `Bind` and `Monad`
//! implemented directly on `Option<A>`, `Result<A, E>`, `Vec<A>`, `Identity<A>`, the
//! function wrappers and `ReaderT`, so that for example `Option::pure(1)` and
//! `<Option<i32> as Functor<i32>>::map(x, f)` work. Their contracts are those of the
//! marker-based traits for the corresponding marker.

pub mod applicative;
pub mod apply;
pub mod functor;
pub mod identity;
pub mod monad;
pub mod transformers;

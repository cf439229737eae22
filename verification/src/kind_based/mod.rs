//! Type-constructor markers used to abstract over `Option`, `Vec`, `Result<_, E>` and
//! function wrappers.

pub mod kind;

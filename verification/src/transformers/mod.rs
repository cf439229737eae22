//! Monad transformers.

pub mod reader;

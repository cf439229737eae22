//! Container-style instances for the reader transformer.

pub mod reader;

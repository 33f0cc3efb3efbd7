//! The second-generation inline buffer.
pub mod inline;

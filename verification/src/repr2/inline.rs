//! The inline buffer shared with `repr`.
pub use crate::repr::inline::InlineBuffer;

//! Computations behind the integrations with other crates.
pub mod garde;

//! Bakes already-parsed data values into Rust constant declarations.
//!
//! A directory of data files becomes a set of `pub const` items: the caller
//! parses each file into a [`value::Value`], and this crate renders each value
//! as a compile-time constant expression of a definite static type, under an
//! identifier derived from the file name.
//!
//! [`value`] models the closed set of bakeable kinds and their well-formedness;
//! [`render`] turns values and type descriptors into literal source text;
//! [`ident`] derives and validates the constant names; [`emit`] assembles whole
//! declarations, directory sweeps and the grouping module; [`laws`] states and
//! proves what the rendering guarantees, among it that every literal reads
//! back as the value it came from.

pub mod emit;
pub mod ident;
pub mod laws;
pub mod render;
pub mod value;

//! The incremental build engine of a compiler driver: artifact naming, reconciliation of a
//! previous build's artifacts with the current sources, and the decisions of the parse,
//! dependency and compile phases. Everything that touches the file system or runs a process
//! is left to the caller, which hands over plain values and acts on the values returned.

pub mod abs_path;
pub mod build_types;
pub mod clean;
pub mod compile;
pub mod deps;
pub mod digest;
pub mod graph;
pub mod helpers;
pub mod laws;
pub mod name_set;
pub mod packages;
pub mod parse;
pub mod scan;
pub mod sources;
pub mod text;

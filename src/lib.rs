//! Managed-object model of an embeddable runtime: type descriptors, a heap of
//! arrays and structs, handles and roots, and the checks made when a compiled
//! function is invoked from native code.
pub mod collect;
pub mod heap;
pub mod laws;
pub mod runtime;
pub mod types;
pub mod utils;

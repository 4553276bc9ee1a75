//! Ingestion of a local audio collection into a catalog: path classification,
//! an iterative directory walk, tag normalisation, an insert-or-ignore catalog,
//! and the per-file decisions of a folder scan (error digest and throttled
//! progress).

pub mod classify;
pub mod walker;
pub mod extract;
pub mod catalog;
pub mod scan;

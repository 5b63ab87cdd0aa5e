//! Persistence and history core for a higher-dimensional diagram editor.
//!
//! The crate provides:
//! - `dense`: a stable-handle container over a compacting array;
//! - `store`: a content-addressed, deduplicating store for diagram graphs;
//! - `history`: a branching undo/redo tree of proof snapshots;
//! - `document` and `migration`: packing a whole document into a flat,
//!   versioned form and accepting older forms on import.

pub mod common;
pub mod dense;
pub mod diagram;
pub mod store;
pub mod homotopy;
pub mod proofstate;
pub mod history;
pub mod document;
pub mod migration;
pub mod geom;

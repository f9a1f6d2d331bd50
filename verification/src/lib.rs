//! Interactive playlist sorting: verified core.
//!
//! The decision logic of the sorter lives here: the per-track menu, the
//! reconciliation of a chosen action against a remote playlist store, and the
//! orchestration of the two around an audio preview. All remote and terminal
//! work is expressed as commands that a thin unverified shell performs; the
//! shell hands the results back as events.

pub mod menu;
pub mod model;
pub mod reconcile;
pub mod session;
pub mod text;

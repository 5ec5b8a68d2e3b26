//! Arenas of objects that are wired into arbitrary graphs, cycles included,
//! while they are built, and that are read-only from then on.
//!
//! An object is identified by its index: the number of objects that its
//! session had allocated before it. A [`Ref`] is a write-once cell that is
//! either unbound or bound to such an index.

pub mod arena;
pub mod builder;
pub mod cell;
pub mod graph;
pub mod laws;
pub mod model;

pub use arena::Arena;
pub use builder::{Builder, Frozen, Handle};
pub use cell::{Ref, Violation};
pub use graph::Graph;
pub use model::Assignment;

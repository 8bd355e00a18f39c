//! A verified in-memory genealogical tree for a simulation game.
//!
//! The library keeps a single family tree rooted at the current head,
//! offers name-based structural edits (transactional batch insert, rename,
//! mark-dead, prune by birth year), a succession operation that re-roots
//! the tree at an eligible descendant, and a deterministic tabular
//! renderer. Every operation carries a contract over a mathematical
//! model of the tree.

pub mod errors;
pub mod inherit;
pub mod laws;
pub mod lemmas;
pub mod model;
pub mod mutate;
pub mod render;
pub mod strutil;
pub mod title;
pub mod tree;

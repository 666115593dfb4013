//! Normalization of flat, possibly self-referential type-declaration tables
//! into deduplicated, cycle-safe type trees, together with a lazy walker over
//! the normalized tree and a builder that walks a concrete value in lockstep
//! with the tree, emitting addressable statements about every sub-value.

pub mod laws;
pub mod normalize;
pub mod schema;
pub mod serialize;
pub mod text;
pub mod walker;

//! Core engine for a semantic word-guessing game and its solver assistant.
//!
//! A vocabulary maps words to fixed-length embedding vectors, stored in a
//! fixed-point integer representation (each component is the real value
//! scaled by `COMP_SCALE`).  Similarity between two words is the dot product
//! of their vectors; since embeddings are pre-normalized by their source,
//! the dot product approximates cosine similarity.
//!
//! On top of that sit:
//! - a constraint log of (word, declared similarity) observations,
//! - a candidate filter that keeps the vocabulary words consistent with
//!   every logged observation,
//! - a ranking engine that orders the vocabulary by similarity to a
//!   reference word, and
//! - a game session that scores guesses against a secret word.

use vstd::prelude::*;

pub mod advisor;
pub mod constraints;
pub mod filter;
pub mod game;
pub mod rank;
pub mod sim;
pub mod solver;
pub mod vocab;

verus! {

/// The recoverable failures of the engine's operations.  Each leaves all
/// session state unchanged.
#[derive(Clone, Copy, Debug, PartialEq, Eq)]
pub enum SolverError {
    /// The named word is absent from the vocabulary.
    UnknownWord,
    /// The named word already has a constraint; edit it instead.
    DuplicateConstraint,
    /// The named word has no constraint to edit or remove.
    UnknownConstraint,
    /// A command argument was missing, of the wrong shape, or off the
    /// declared similarity scale.
    MalformedInput,
}

/// Fixed-point scale of a single vector component: a real component `x`
/// is stored as `round(x * COMP_SCALE)`.
pub const COMP_SCALE: i64 = 10_000;

/// Largest magnitude allowed for a stored vector component
/// (100.0 in real units, far above any normalized embedding).
pub const MAX_COMP: i64 = 1_000_000;

/// Largest vector length a vocabulary accepts.
pub const MAX_DIM: usize = 4_096;

} // verus!

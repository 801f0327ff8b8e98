//! A conservative optimization pass over a small SSA intermediate
//! representation: it removes matched pairs of array reference-count
//! `IncrementRc` / `DecrementRc` instructions when no `ArraySet` touching
//! an array of the same type occurs anywhere in the function.
//!
//! The pass is deliberately restricted: increments are tracked only in the
//! entry block, decrements are matched only in the designated last block,
//! and mutation is tracked per array type rather than per value, standing
//! in for the alias analysis the pass does not attempt.

pub mod analysis;
pub mod ir;
pub mod laws;
pub mod rc;

//! A verified abstraction of prime-order additive groups as used by
//! elliptic-curve cryptography: the algebraic capability every group type
//! must offer, an adapter that re-exposes such a type under a second,
//! structurally different group vocabulary, a small residue group that
//! exercises both, and proofs of the group laws.

pub mod adapter;
mod external;
pub mod field;
pub mod group;
pub mod laws;
pub mod residue;

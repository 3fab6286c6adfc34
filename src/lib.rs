//! A KZG polynomial commitment scheme over BLS12-381: a reference string of powers of
//! a discarded trapdoor, commitments to polynomials, opening witnesses made by exact
//! polynomial division, and their pairing check. Beside it, arithmetic modulo a number
//! of any size.

pub mod curve;
pub mod field;
pub mod polynomial_commitments;
pub mod polynomials;

//! Additive (n-out-of-n) and polynomial threshold secret sharing over a
//! small prime field.

pub mod additive;
pub mod field;
pub mod polynomial;
mod random;
pub mod plot;
pub mod shamir;

//! Exact signed fractions read from and written to a small text grammar.
//!
//! A literal is a bare integer (`7`, `- 12`) or a ratio (`3/4`, `-1 / 2`).
//! Values are always held in lowest terms, so structural equality is
//! equality of the rational numbers they denote.

pub mod arith;
pub mod value;
pub mod grammar;
pub mod laws;

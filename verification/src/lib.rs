//! A KZG-style polynomial commitment scheme over BLS12-381, with a derived
//! non-interactive proof protocol for the polynomial identity `a * b - c = q * Z`.
//!
//! Field and curve arithmetic comes from the arkworks crates; every element is
//! carried in its canonical serialized form, so the protocol logic above the
//! arithmetic is verified.

pub mod curve;
pub mod metric;
pub mod poly;
pub mod prove;
pub mod verify;

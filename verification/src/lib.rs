//! A PLONK-style shuffle gate embedded in an incrementally-verifiable-computation
//! (IVC) folding loop.
//!
//! The crate models an arithmetic-circuit table of witness, fixed and selector
//! columns, declares a single shuffle constraint (multiset equality between two
//! paired value streams), wires that gate into step circuits, and drives a
//! sequential folding run: key setup, public-parameter construction, instance
//! creation, per-step folding, and final verification.

pub mod circuit;
pub mod constraint;
pub mod driver;
pub mod ivc;
pub mod keycache;
pub mod step;
pub mod table;

use vstd::prelude::*;

verus! {

/// A field element of the circuit's scalar field, modelled as a plain word.
pub type FieldElem = u64;

} // verus!

//! Classification of short DNA reads by the primer pair found in them, and
//! resolution of that pair to a named sample.
use vstd::prelude::*;

pub mod dna;
pub mod primers;
pub mod classify;
pub mod samples;

verus! {

} // verus!

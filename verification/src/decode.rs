//! From the module bitmap of a symbol to its payload.

use vstd::prelude::*;

pub mod bch;
pub mod bch_recovery;
pub mod berlekamp;
pub mod datastream;
pub mod decoder;
pub mod err_corr;
pub mod field16;
pub mod format;
pub mod galois;
pub mod payload;
pub mod polynomial;

verus! {

/// The number of coefficients that a polynomial holds.
pub const MAX_POLY: usize = 64;

} // verus!

//! From an image to the symbols in it.

use vstd::prelude::*;

pub mod capstone;
pub mod extract;
pub mod fitness;
pub mod floodfill;
pub mod grid;
pub mod linear_algebra;
pub mod region;
pub mod thresholding;

verus! {

} // verus!

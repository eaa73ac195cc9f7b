//! Exact, overflow-safe primitives for integer-coordinate computational
//! geometry (an overflow-free 64x64 -> 128 bit product, an angular order on
//! integer points, and a sign-aware order on angles between points), together
//! with a few small verified utilities: binary-search helpers, slice
//! rotation, a growable character string, and a grid/BFS connected-components
//! structure.

pub mod bigints;
pub mod geometry;
pub mod graph;
pub mod slices_extensions;
pub mod sorting;
pub mod strings;

use vstd::prelude::*;

verus! {

} // verus!

//! A solver for a binary placement puzzle on a square grid.
//!
//! Every cell of the grid ends up Black or White. Edges between neighbouring
//! cells may demand equal or different marks, no three neighbours in a row or
//! column may share a mark, and a full row or column holds as many Black as
//! White cells. [`board::Board`] is the constraint model, and [`solve::solve`]
//! the exhaustive search that completes a partly marked board.
use vstd::prelude::*;

pub mod board;
pub mod error;
pub mod search;
pub mod solve;

verus! {

} // verus!

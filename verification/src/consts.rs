use vstd::prelude::*;

verus! {

/// Spatial dimension of the meshes.
pub const DIM: usize = 2;

/// Number of corners of a cell (a quadrilateral).
pub const CELL_CORNERS: usize = 4;

/// Number of faces of a cell.
pub const CELL_FACES: usize = 4;

/// Number of corners of a face (an edge).
pub const FACE_CORNERS: usize = 2;

} // verus!

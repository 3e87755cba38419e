use vstd::prelude::*;

use crate::consts::{CELL_CORNERS, DIM, FACE_CORNERS};

verus! {

/// The cell corners (in z-order: 0 = (0,0), 1 = (1,0), 2 = (0,1), 3 = (1,1))
/// that bound face `face` (0 = x-, 1 = x+, 2 = y-, 3 = y+), in the order
/// that walks the cell boundary counterclockwise.
pub open spec fn spec_face_corner_ids(face: int) -> (int, int) {
    if face == 0 {
        (2, 0)
    } else if face == 1 {
        (1, 3)
    } else if face == 2 {
        (0, 1)
    } else {
        (3, 2)
    }
}

/// The corner ids of face `face` of a cell.
pub fn face_corner_ids(face: i8) -> (ids: [i32; FACE_CORNERS])
    requires
        0 <= face < 4,
    ensures
        ids[0] as int == spec_face_corner_ids(face as int).0,
        ids[1] as int == spec_face_corner_ids(face as int).1,
{
    if face == 0 {
        [2, 0]
    } else if face == 1 {
        [1, 3]
    } else if face == 2 {
        [0, 1]
    } else {
        [3, 2]
    }
}


/// The corners of face `face` of a cell, taken from the cell's corners.
pub fn face_corners_from_cell<T: Copy>(face: i8, cell_corners: [[T; DIM]; CELL_CORNERS]) -> (out: [[T; DIM]; FACE_CORNERS])
    requires
        0 <= face < 4,
    ensures
        out[0] == cell_corners[spec_face_corner_ids(face as int).0],
        out[1] == cell_corners[spec_face_corner_ids(face as int).1],
{
    let ids = face_corner_ids(face);
    [cell_corners[ids[0] as usize], cell_corners[ids[1] as usize]]
}

/// The integer corner coordinates of a cell as unsigned numbers.
pub fn cell_corners_int(corner_nodes: [[i32; DIM]; CELL_CORNERS]) -> (c: [[u32; DIM]; CELL_CORNERS])
    ensures
        forall|i: int, j: int|
            0 <= i < CELL_CORNERS && 0 <= j < DIM ==> #[trigger] c[i][j] == corner_nodes[i][j] as u32,
{
    let mut c = [[0u32; DIM]; CELL_CORNERS];
    let mut i: usize = 0;
    while i < CELL_CORNERS
        invariant
            i <= CELL_CORNERS,
            forall|i2: int, j: int|
                0 <= i2 < i && 0 <= j < DIM ==> #[trigger] c[i2][j] == corner_nodes[i2][j] as u32,
        decreases CELL_CORNERS - i,
    {
        let row = corner_nodes[i];
        c[i] = [row[0] as u32, row[1] as u32];
        i = i + 1;
    }
    c
}

/// The position of corner `c` (z-order) of the unit cell along axis `axis`.
pub open spec fn corner_coordinate(c: int, axis: int) -> int {
    if axis == 0 {
        c % 2
    } else {
        c / 2
    }
}

/// Law: both corners of face `f` lie on that face: face `f` is where the
/// coordinate along axis `f / 2` equals `f % 2`; and the two corners differ.
pub proof fn lemma_face_corners_on_face(f: int)
    requires
        0 <= f < 4,
    ensures
        corner_coordinate(spec_face_corner_ids(f).0, f / 2) == f % 2,
        corner_coordinate(spec_face_corner_ids(f).1, f / 2) == f % 2,
        spec_face_corner_ids(f).0 != spec_face_corner_ids(f).1,
        0 <= spec_face_corner_ids(f).0 < CELL_CORNERS,
        0 <= spec_face_corner_ids(f).1 < CELL_CORNERS,
{
}

/// Law: taken in the order 2, 1, 3, 0 (bottom, right, top, left), each face
/// ends where the next one starts, so the faces walk around the cell
/// counterclockwise.
pub proof fn lemma_faces_form_cycle()
    ensures
        spec_face_corner_ids(2).1 == spec_face_corner_ids(1).0,
        spec_face_corner_ids(1).1 == spec_face_corner_ids(3).0,
        spec_face_corner_ids(3).1 == spec_face_corner_ids(0).0,
        spec_face_corner_ids(0).1 == spec_face_corner_ids(2).0,
{
}

} // verus!

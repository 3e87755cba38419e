//! Which faces a visit of one mesh face produces.
//!
//! The mesh iterator visits each face with its one (boundary) or two
//! (interior) sides. A side holds one quadrant, or two when it is hanging
//! (the quadrants on it are finer than those across). Every pair of
//! quadrants across the face gives one face, whose first cell is the one
//! with the smaller local id.

use vstd::prelude::*;

verus! {

/// One side of a mesh face: which face of its quadrants it is (0 to 3),
/// and the local ids of its quadrants (one, or two when hanging).
#[derive(Clone, Debug)]
pub struct FaceSide {
    pub face: i8,
    pub local_ids: Vec<u32>,
}

/// A quadrant of a face visit: the side it is on and its place on that side.
#[derive(PartialEq, Eq, Structural, Clone, Copy, Debug)]
pub struct QuadRef {
    pub side: usize,
    pub quad: usize,
}

/// A face to hand out: its cells, its id, which face of which cell it is,
/// the quadrant whose corners give its corners, and its subface id.
#[derive(PartialEq, Eq, Structural, Clone, Copy, Debug)]
pub struct PlannedFace {
    pub cell0: QuadRef,
    pub cell1: Option<QuadRef>,
    pub id: usize,
    pub face_id: i8,
    pub face_id_side: u8,
    pub corner_source: QuadRef,
    pub subface_id: Option<u8>,
}

/// A face visit that the iterator can produce: one or two sides, each with
/// one or two quadrants.
pub open spec fn valid_visit(sides: Seq<FaceSide>) -> bool {
    &&& 1 <= sides.len() <= 2
    &&& forall|s: int| 0 <= s < sides.len() ==> 1 <= #[trigger] sides[s].local_ids@.len() <= 2
}

/// The face given by quadrant `i` of the only side of a boundary face.
pub open spec fn boundary_face(s0: FaceSide, i: int, id: int) -> PlannedFace {
    PlannedFace {
        cell0: QuadRef { side: 0, quad: i as usize },
        cell1: None,
        id: id as usize,
        face_id: s0.face,
        face_id_side: 0,
        corner_source: QuadRef { side: 0, quad: i as usize },
        subface_id: if s0.local_ids@.len() > 1 {
            Some(i as u8)
        } else {
            None
        },
    }
}

/// The face between quadrant `i` of side 0 and quadrant `j` of side 1.
/// Its corners and face number come from side 0 unless side 1 has more
/// quadrants. Its first cell is the quadrant with the smaller local id
/// (the one of side 1 on a tie). `face_id_side` is the side that gave the
/// face number, flipped when the first cell is the quadrant of side 1.
/// A hanging face takes `tag` as its subface id.
pub open spec fn interior_face(s0: FaceSide, s1: FaceSide, i: int, j: int, id: int, tag: u8) -> PlannedFace {
    let n0 = s0.local_ids@.len();
    let n1 = s1.local_ids@.len();
    let q0 = QuadRef { side: 0, quad: i as usize };
    let q1 = QuadRef { side: 1, quad: j as usize };
    let from0 = n0 >= n1;
    let source = if from0 {
        q0
    } else {
        q1
    };
    let face_id = if from0 {
        s0.face
    } else {
        s1.face
    };
    let side: u8 = if from0 {
        0
    } else {
        1
    };
    let subface_id = if n0 > 1 || n1 > 1 {
        Some(tag)
    } else {
        None
    };
    if s0.local_ids@[i] < s1.local_ids@[j] {
        PlannedFace {
            cell0: q0,
            cell1: Some(q1),
            id: id as usize,
            face_id,
            face_id_side: side,
            corner_source: source,
            subface_id,
        }
    } else {
        PlannedFace {
            cell0: q1,
            cell1: Some(q0),
            id: id as usize,
            face_id,
            face_id_side: if side == 0 {
                1
            } else {
                0
            },
            corner_source: source,
            subface_id,
        }
    }
}

/// The local id of the quadrant that `q` names.
pub open spec fn local_id_of(sides: Seq<FaceSide>, q: QuadRef) -> u32 {
    sides[q.side as int].local_ids@[q.quad as int]
}

/// The faces that one visit produces, numbered from `next_id` on. For a
/// boundary face, one per quadrant of its side; for an interior face, one
/// per pair of quadrants across it, pairs taken row by row (quadrant `i` of
/// side 0 with each quadrant of side 1 in turn). `tag` is the subface id
/// that a hanging interior face carries.
pub fn plan_face_visit(sides: &Vec<FaceSide>, next_id: usize, tag: u8) -> (faces: Vec<PlannedFace>)
    requires
        valid_visit(sides@),
        next_id + 4 <= usize::MAX,
    ensures
        sides@.len() == 1 ==> {
            &&& faces@.len() == sides@[0].local_ids@.len()
            &&& forall|k: int|
                0 <= k < faces@.len() ==> #[trigger] faces@[k] == boundary_face(
                    sides@[0],
                    k,
                    next_id + k,
                )
        },
        sides@.len() == 2 ==> {
            let n1 = sides@[1].local_ids@.len() as int;
            &&& faces@.len() == sides@[0].local_ids@.len() * n1
            &&& forall|k: int|
                0 <= k < faces@.len() ==> #[trigger] faces@[k] == interior_face(
                    sides@[0],
                    sides@[1],
                    k / n1,
                    k % n1,
                    next_id + k,
                    tag,
                )
        },
{
    let mut faces: Vec<PlannedFace> = Vec::new();
    let s0 = &sides[0];
    let n0 = s0.local_ids.len();
    assert(1 <= sides@[0].local_ids@.len() <= 2);
    if sides.len() == 1 {
        let mut i: usize = 0;
        while i < n0
            invariant
                i <= n0 == sides@[0].local_ids@.len() <= 2,
                *s0 == sides@[0],
                next_id + 4 <= usize::MAX,
                faces@.len() == i,
                forall|k: int|
                    0 <= k < i ==> #[trigger] faces@[k] == boundary_face(sides@[0], k, next_id + k),
            decreases n0 - i,
        {
            let f = PlannedFace {
                cell0: QuadRef { side: 0, quad: i },
                cell1: None,
                id: next_id + i,
                face_id: s0.face,
                face_id_side: 0,
                corner_source: QuadRef { side: 0, quad: i },
                subface_id: if n0 > 1 {
                    Some(i as u8)
                } else {
                    None
                },
            };
            faces.push(f);
            i = i + 1;
        }
        return faces;
    }
    let s1 = &sides[1];
    let n1 = s1.local_ids.len();
    assert(1 <= sides@[1].local_ids@.len() <= 2);
    assert(n0 * n1 <= 4) by (nonlinear_arith)
        requires
            n0 <= 2,
            n1 <= 2,
    ;
    let total = n0 * n1;
    let mut k: usize = 0;
    while k < total
        invariant
            k <= total == n0 * n1,
            total <= 4,
            sides@.len() == 2,
            n0 == sides@[0].local_ids@.len(),
            n1 == sides@[1].local_ids@.len(),
            1 <= n0 <= 2,
            1 <= n1 <= 2,
            *s0 == sides@[0],
            *s1 == sides@[1],
            next_id + 4 <= usize::MAX,
            faces@.len() == k,
            forall|m: int|
                0 <= m < k ==> #[trigger] faces@[m] == interior_face(
                    sides@[0],
                    sides@[1],
                    m / (n1 as int),
                    m % (n1 as int),
                    next_id + m,
                    tag,
                ),
        decreases total - k,
    {
        let i = k / n1;
        let j = k % n1;
        assert(i < n0) by (nonlinear_arith)
            requires
                i == k / n1,
                k < n0 * n1,
                n1 >= 1,
        ;
        let q0 = QuadRef { side: 0, quad: i };
        let q1 = QuadRef { side: 1, quad: j };
        let from0 = n0 >= n1;
        let source = if from0 {
            q0
        } else {
            q1
        };
        let face_id = if from0 {
            s0.face
        } else {
            s1.face
        };
        let side: u8 = if from0 {
            0
        } else {
            1
        };
        let subface_id = if n0 > 1 || n1 > 1 {
            Some(tag)
        } else {
            None
        };
        let f = if s0.local_ids[i] < s1.local_ids[j] {
            PlannedFace {
                cell0: q0,
                cell1: Some(q1),
                id: next_id + k,
                face_id,
                face_id_side: side,
                corner_source: source,
                subface_id,
            }
        } else {
            PlannedFace {
                cell0: q1,
                cell1: Some(q0),
                id: next_id + k,
                face_id,
                face_id_side: if side == 0 {
                    1
                } else {
                    0
                },
                corner_source: source,
                subface_id,
            }
        };
        assert(f == interior_face(sides@[0], sides@[1], k as int / (n1 as int), k as int % (n1 as int), next_id + k, tag));
        faces.push(f);
        k = k + 1;
    }
    faces
}

/// Law: in every face between two quadrants, the first cell's local id is
/// no greater than the second's.
pub proof fn lemma_interior_face_cells_ordered(
    sides: Seq<FaceSide>,
    i: int,
    j: int,
    id: int,
    tag: u8,
)
    requires
        valid_visit(sides),
        sides.len() == 2,
        0 <= i < sides[0].local_ids@.len(),
        0 <= j < sides[1].local_ids@.len(),
    ensures
        ({
            let f = interior_face(sides[0], sides[1], i, j, id, tag);
            &&& f.cell1 is Some
            &&& local_id_of(sides, f.cell0) <= local_id_of(sides, f.cell1->0)
            &&& f.cell0 != f.cell1->0
        }),
{
}


/// Law: a face between quadrant `i` of side 0 and quadrant `j` of side 1
/// has exactly those two quadrants as its cells; its corners come from one
/// of its own cells, the one on the side with more quadrants (side 0 on a
/// tie); and its face number is that side's.
pub proof fn lemma_interior_face_corners_from_own_cell(
    sides: Seq<FaceSide>,
    i: int,
    j: int,
    id: int,
    tag: u8,
)
    requires
        valid_visit(sides),
        sides.len() == 2,
        0 <= i < sides[0].local_ids@.len(),
        0 <= j < sides[1].local_ids@.len(),
    ensures
        ({
            let f = interior_face(sides[0], sides[1], i, j, id, tag);
            let q0 = QuadRef { side: 0, quad: i as usize };
            let q1 = QuadRef { side: 1, quad: j as usize };
            let s = f.corner_source.side as int;
            &&& (f.cell0 == q0 && f.cell1 == Some(q1)) || (f.cell0 == q1 && f.cell1 == Some(q0))
            &&& f.corner_source == q0 || f.corner_source == q1
            &&& s == 0 || s == 1
            &&& sides[s].local_ids@.len() >= sides[1 - s].local_ids@.len()
            &&& (sides[0].local_ids@.len() == sides[1].local_ids@.len() ==> s == 0)
            &&& f.face_id == sides[s].face
            &&& f.id == id as usize
            &&& (f.face_id_side == 0 <==> f.cell0.side == f.corner_source.side)
            &&& (f.face_id_side == 0 || f.face_id_side == 1)
            &&& (f.cell0 == q0 <==> sides[0].local_ids@[i] < sides[1].local_ids@[j])
            &&& (f.subface_id is Some <==> (sides[0].local_ids@.len() > 1 || sides[1].local_ids@.len() > 1))
            &&& (f.subface_id matches Some(k) ==> k == tag)
        }),
{
}

/// Law: a boundary face has quadrant `i` of its only side as its one cell,
/// takes its corners and face number from it, and names it as a subface
/// exactly when that side is hanging.
pub proof fn lemma_boundary_face_of_quad(sides: Seq<FaceSide>, i: int, id: int)
    requires
        valid_visit(sides),
        sides.len() == 1,
        0 <= i < sides[0].local_ids@.len(),
    ensures
        ({
            let f = boundary_face(sides[0], i, id);
            &&& f.cell0 == QuadRef { side: 0, quad: i as usize }
            &&& f.cell1 is None
            &&& f.corner_source == f.cell0
            &&& f.face_id == sides[0].face
            &&& f.face_id_side == 0
            &&& (f.subface_id is Some <==> sides[0].local_ids@.len() > 1)
            &&& (f.subface_id matches Some(k) ==> k == i)
        }),
{
}

} // verus!

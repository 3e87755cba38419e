use p4est::cells::{assign_cell_ids, update_ghost_ids, CellData};
use p4est::corners::{cell_corners_int, face_corner_ids, face_corners_from_cell};
use p4est::faces::{plan_face_visit, FaceSide, PlannedFace, QuadRef};
use p4est::transfer::{plan_tree_transfer, TransferError, TransferStep};

fn side(face: i8, ids: &[u32]) -> FaceSide {
    FaceSide { face, local_ids: ids.to_vec() }
}

fn q(side: usize, quad: usize) -> QuadRef {
    QuadRef { side, quad }
}

#[test]
fn boundary_face_single_quad() {
    let f = plan_face_visit(&vec![side(3, &[5])], 10, 200);
    assert_eq!(
        f,
        vec![PlannedFace {
            cell0: q(0, 0),
            cell1: None,
            id: 10,
            face_id: 3,
            face_id_side: 0,
            corner_source: q(0, 0),
            subface_id: None
        }]
    );
}

#[test]
fn boundary_face_hanging_side() {
    let f = plan_face_visit(&vec![side(0, &[5, 6])], 0, 200);
    assert_eq!(f.len(), 2);
    assert_eq!(f[0].subface_id, Some(0));
    assert_eq!(f[1].subface_id, Some(1));
    assert_eq!(f[1].id, 1);
    assert_eq!(f[1].cell0, q(0, 1));
}

#[test]
fn interior_face_orders_cells_by_local_id() {
    let f = plan_face_visit(&vec![side(1, &[4]), side(0, &[2])], 7, 200);
    assert_eq!(
        f,
        vec![PlannedFace {
            cell0: q(1, 0),
            cell1: Some(q(0, 0)),
            id: 7,
            face_id: 1,
            face_id_side: 1,
            corner_source: q(0, 0),
            subface_id: None
        }]
    );
    let g = plan_face_visit(&vec![side(1, &[1]), side(0, &[2])], 7, 200);
    assert_eq!(g[0].cell0, q(0, 0));
    assert_eq!(g[0].face_id_side, 0);
}

#[test]
fn interior_face_tie_puts_side_one_first() {
    let f = plan_face_visit(&vec![side(1, &[3]), side(0, &[3])], 0, 9);
    assert_eq!(f[0].cell0, q(1, 0));
    assert_eq!(f[0].cell1, Some(q(0, 0)));
}

#[test]
fn interior_face_hanging_on_far_side() {
    let f = plan_face_visit(&vec![side(1, &[0]), side(0, &[8, 9])], 20, 77);
    assert_eq!(f.len(), 2);
    for (k, face) in f.iter().enumerate() {
        assert_eq!(face.id, 20 + k);
        assert_eq!(face.cell0, q(0, 0));
        assert_eq!(face.cell1, Some(q(1, k)));
        assert_eq!(face.face_id, 0);
        assert_eq!(face.face_id_side, 1);
        assert_eq!(face.corner_source, q(1, k));
        assert_eq!(face.subface_id, Some(77));
    }
}

#[test]
fn interior_face_hanging_near_side() {
    let f = plan_face_visit(&vec![side(2, &[8, 1]), side(3, &[5])], 0, 1);
    assert_eq!(f.len(), 2);
    assert_eq!(f[0].cell0, q(1, 0));
    assert_eq!(f[0].face_id_side, 1);
    assert_eq!(f[0].corner_source, q(0, 0));
    assert_eq!(f[1].cell0, q(0, 1));
    assert_eq!(f[1].face_id_side, 0);
    assert_eq!(f[1].face_id, 2);
}

#[test]
fn transfer_identical_copies() {
    let levels = vec![1, 1, 2, 2, 2, 2, 1];
    let steps = plan_tree_transfer(&levels, &levels).unwrap();
    let expected: Vec<TransferStep> = (0..levels.len()).map(|k| TransferStep::Copy { old: k, new: k }).collect();
    assert_eq!(steps, expected);
}

#[test]
fn transfer_refine_and_coarsen() {
    let old = vec![1, 2, 2, 2, 2, 1];
    let new = vec![2, 2, 2, 2, 1, 1];
    let steps = plan_tree_transfer(&old, &new).unwrap();
    assert_eq!(
        steps,
        vec![
            TransferStep::Refine { old: 0, new: 0 },
            TransferStep::Coarsen { old: 1, new: 4 },
            TransferStep::Copy { old: 5, new: 5 },
        ]
    );
}

#[test]
fn transfer_stops_at_shorter_side() {
    let steps = plan_tree_transfer(&vec![0, 0, 0], &vec![0]).unwrap();
    assert_eq!(steps, vec![TransferStep::Copy { old: 0, new: 0 }]);
}

#[test]
fn transfer_errors() {
    assert_eq!(
        plan_tree_transfer(&vec![0], &vec![2]),
        Err(TransferError::LevelMismatch { old_level: 0, new_level: 2 })
    );
    assert_eq!(plan_tree_transfer(&vec![], &vec![0]), Err(TransferError::OutOfRange));
    assert_eq!(plan_tree_transfer(&vec![0], &vec![1, 1]), Err(TransferError::OutOfRange));
    assert_eq!(plan_tree_transfer(&vec![1, 1, 1], &vec![0]), Err(TransferError::OutOfRange));
}

#[test]
fn face_corner_table() {
    assert_eq!(face_corner_ids(0), [2, 0]);
    assert_eq!(face_corner_ids(1), [1, 3]);
    assert_eq!(face_corner_ids(2), [0, 1]);
    assert_eq!(face_corner_ids(3), [3, 2]);
    let cell = [[0u32, 0], [1, 0], [0, 1], [1, 1]];
    assert_eq!(face_corners_from_cell(1, cell), [[1, 0], [1, 1]]);
    assert_eq!(face_corners_from_cell(0, cell), [[0, 1], [0, 0]]);
    // every corner of face f lies on it
    for f in 0..4i8 {
        for c in face_corner_ids(f) {
            let coord = if f / 2 == 0 { c % 2 } else { c / 2 };
            assert_eq!(coord, (f % 2) as i32);
        }
    }
}

#[test]
fn corner_coordinates_as_unsigned() {
    let c = cell_corners_int([[0, 1], [-1, 2], [3, 4], [i32::MAX, 0]]);
    assert_eq!(c, [[0, 1], [u32::MAX, 2], [3, 4], [i32::MAX as u32, 0]]);
}

#[test]
fn ghost_ids_follow_local_cells() {
    let mut ghosts: Vec<CellData<u8>> = vec![CellData { data: 9, local_id: 0, global_id: 33, owner_rank: 2 }; 3];
    update_ghost_ids(&mut ghosts, 5);
    let ids: Vec<u32> = ghosts.iter().map(|g| g.local_id).collect();
    assert_eq!(ids, vec![5, 6, 7]);
    assert!(ghosts.iter().all(|g| g.global_id == 33 && g.owner_rank == 2 && g.data == 9));
}

#[test]
fn cell_ids_from_tree_offsets() {
    let mut cell = CellData { data: 'x', local_id: 0, global_id: 0, owner_rank: 0 };
    assign_cell_ids(&mut cell, 3, 10, 100, 4);
    assert_eq!((cell.local_id, cell.global_id, cell.owner_rank, cell.data), (13, 113, 4, 'x'));
}

#[test]
fn faces_walk_around_the_cell() {
    let order = [2i8, 1, 3, 0];
    for w in 0..4 {
        let this = face_corner_ids(order[w]);
        let next = face_corner_ids(order[(w + 1) % 4]);
        assert_eq!(this[1], next[0]);
    }
}

#[test]
fn transfer_steps_fit_levels() {
    let old = vec![3, 4, 4, 4, 4, 3, 3];
    let new = vec![3, 3, 4, 4, 4, 4, 3];
    let steps = plan_tree_transfer(&old, &new).unwrap();
    assert_eq!(
        steps,
        vec![
            TransferStep::Copy { old: 0, new: 0 },
            TransferStep::Coarsen { old: 1, new: 1 },
            TransferStep::Refine { old: 5, new: 2 },
            TransferStep::Copy { old: 6, new: 6 },
        ]
    );
}

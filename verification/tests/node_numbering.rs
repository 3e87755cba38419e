use p4est::nodes::{point_key, NodeFace, NodeNumbering};

fn face(corners_int: [[u32; 2]; 2], cell0: usize, cell1: Option<usize>) -> NodeFace<(u32, u32)> {
    NodeFace {
        corners_int,
        corners: [(corners_int[0][0], corners_int[0][1]), (corners_int[1][0], corners_int[1][1])],
        face_id_side: 0,
        tree0: 0,
        tree1: Some(0),
        cell0,
        cell1,
    }
}

fn two_cells() -> Vec<NodeFace<(u32, u32)>> {
    // cells 0 and 1 side by side; the shared face is visited last
    vec![
        face([[0, 1], [0, 0]], 0, None),
        face([[2, 0], [2, 1]], 1, None),
        face([[1, 0], [1, 1]], 0, Some(1)),
    ]
}

#[test]
fn each_face_corner_is_a_node() {
    let faces = two_cells();
    let nn = NodeNumbering::new(2, &faces);
    assert_eq!(nn.cell_nodes(0), &[0, 1, 4, 5]);
    assert_eq!(nn.cell_nodes(1), &[2, 3, 4, 5]);
}

#[test]
fn face_nodes_round_trip() {
    let faces = two_cells();
    let nn = NodeNumbering::new(2, &faces);
    assert_eq!(nn.face_nodes(&faces[0]), Some([0, 1]));
    assert_eq!(nn.face_nodes(&faces[2]), Some([4, 5]));
}

#[test]
fn repeated_key_names_last_node() {
    let mut faces = two_cells();
    faces.push(face([[1, 0], [2, 0]], 1, None));
    let nn = NodeNumbering::new(2, &faces);
    // corner (1, 0) of tree 0 was numbered 4, then 6
    assert_eq!(nn.face_nodes(&faces[2]), Some([6, 5]));
    assert_eq!(nn.cell_nodes(1), &[2, 3, 4, 5, 6, 7]);
}

#[test]
fn unknown_corner_or_tree_gives_none() {
    let faces = two_cells();
    let nn = NodeNumbering::new(3, &faces);
    assert_eq!(nn.face_nodes(&face([[7, 7], [0, 0]], 0, None)), None);
    let mut other_tree = faces[0];
    other_tree.tree0 = 1;
    assert_eq!(nn.face_nodes(&other_tree), None);
    let mut side_one = faces[0];
    side_one.face_id_side = 1;
    side_one.tree1 = None;
    assert_eq!(nn.face_nodes(&side_one), None);
    assert_eq!(nn.cell_nodes(2), &[] as &[usize]);
}

#[test]
fn keys_pack_coordinates_and_tree() {
    assert_eq!(point_key([1, 2], 3), 1 + (2u128 << 32) + ((u32::MAX as u128) << 64) + (3u128 << 96));
    assert_ne!(point_key([1, 2], 3), point_key([2, 1], 3));
}

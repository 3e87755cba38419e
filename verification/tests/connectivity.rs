use p4est::basetree::BaseTree;

#[test]
fn unit_square_connectivity() {
    let tree = BaseTree::from_parts(vec![(); 4], vec![0, 1, 2, 3], vec![0, 4]);
    let c = tree.build_connectivity();
    assert_eq!(c.vertex_nodes, vec![0, 1, 3, 2]);
    assert_eq!(c.tree_to_vertex, vec![0, 1, 2, 3]);
    assert_eq!(c.tree_to_tree, vec![0, 0, 0, 0]);
    assert_eq!(c.tree_to_face, vec![0, 1, 2, 3]);
}

#[test]
fn shared_corners_are_one_vertex() {
    // two quads side by side: nodes 0 1 2 / 3 4 5 (bottom / top row)
    let tree = BaseTree::from_parts(vec![(); 6], vec![0, 1, 3, 4, 1, 2, 4, 5], vec![0, 4, 8]);
    let c = tree.build_connectivity();
    assert_eq!(c.vertex_nodes.len(), 6);
    for e in 0..2 {
        let corners = tree.element(e).corners();
        for k in 0..4 {
            let v = c.tree_to_vertex[4 * e + k] as usize;
            assert_eq!(c.vertex_nodes[v], corners[k]);
        }
    }
    assert_eq!(c.tree_to_tree, vec![0, 0, 0, 0, 1, 1, 1, 1]);
    assert_eq!(c.tree_to_face, vec![0, 1, 2, 3, 0, 1, 2, 3]);
}

#[test]
fn higher_order_element_uses_first_four_nodes() {
    let tree = BaseTree::from_parts(vec![(); 9], (0..9).collect(), vec![0, 9]);
    let c = tree.build_connectivity();
    assert_eq!(c.vertex_nodes, vec![0, 1, 3, 2]);
}

#[test]
fn unit_square_tree() {
    let tree = BaseTree::new_unitsquare(vec!['a', 'b', 'c', 'd']);
    assert_eq!(tree.element_len(), 1);
    assert_eq!(tree.node_len(), 4);
    assert_eq!(tree.element(0).corners(), [0, 1, 3, 2]);
    assert!(tree.element_is_valid(0));
    assert!(!tree.element_is_valid(1));
    let (nodes, elements, starts) = tree.into_parts();
    assert_eq!(nodes, vec!['a', 'b', 'c', 'd']);
    assert_eq!(elements, vec![0, 1, 2, 3]);
    assert_eq!(starts, vec![0, 4]);
}

#[test]
fn invalid_element_ranges_are_reported() {
    let tree = BaseTree::from_parts(vec![(); 4], vec![0, 1, 2, 3], vec![0, 4, 3, 9]);
    assert!(tree.element_is_valid(0));
    assert!(!tree.element_is_valid(1));
    assert!(!tree.element_is_valid(2));
    let copy = tree.clone();
    assert_eq!(copy.element_len(), 3);
}

use p4est::basetree::BaseTree;
use p4est::ordering::reorder_raw_vtk_element;
use p4est::roots::{floor_sqrt_capped, round_sqrt_small};
use p4est::su2::Su2ErrorKind;
use p4est::text::{find_separator, parse_unsigned_token, split_on_spaces, trimmed};

fn chars(s: &str) -> Vec<char> {
    s.chars().collect()
}

fn lines(text: &str) -> Vec<Vec<char>> {
    text.lines().map(chars).collect()
}

fn text_of(tokens: &Vec<Vec<char>>) -> Vec<String> {
    tokens.iter().map(|t| t.iter().collect()).collect()
}

const SQUARE: &str = "NDIME= 2\nNELEM= 1\n9 0 1 3 2 0\nNPOIN= 4\n0.0 0.0 0\n1.0 0.0 1\n0.0 1.0 2\n1.0 1.0 3\n";

#[test]
fn trim_removes_unicode_white_space() {
    let t = trimmed(&chars("\t\u{3000} NDIME= 2 \u{a0}\r"));
    assert_eq!(t, chars("NDIME= 2"));
    assert_eq!(trimmed(&chars(" \t ")), Vec::<char>::new());
}

#[test]
fn split_keeps_empty_pieces() {
    let p = split_on_spaces(&chars("9  1"));
    assert_eq!(text_of(&p), vec!["9".to_string(), "".to_string(), "1".to_string()]);
    let p = split_on_spaces(&chars(""));
    assert_eq!(p.len(), 1);
}

#[test]
fn separator_is_equals_then_space() {
    assert_eq!(find_separator(&chars("NELEM= 3"), 0), Some(5));
    assert_eq!(find_separator(&chars("NELEM=3"), 0), None);
    assert_eq!(find_separator(&chars("A= 1= 2"), 3), Some(4));
}

#[test]
fn unsigned_numbers_read_like_parse() {
    assert_eq!(parse_unsigned_token(&chars("42"), usize::MAX), Some(42));
    assert_eq!(parse_unsigned_token(&chars("+7"), usize::MAX), Some(7));
    assert_eq!(parse_unsigned_token(&chars("+"), usize::MAX), None);
    assert_eq!(parse_unsigned_token(&chars(""), usize::MAX), None);
    assert_eq!(parse_unsigned_token(&chars("-1"), usize::MAX), None);
    assert_eq!(parse_unsigned_token(&chars("255"), 255), Some(255));
    assert_eq!(parse_unsigned_token(&chars("256"), 255), None);
    assert_eq!(parse_unsigned_token(&chars("1x"), 255), None);
    assert_eq!(parse_unsigned_token(&chars("99999999999999999999999"), usize::MAX), None);
    for s in ["0", "12", "007", "+3", "18446744073709551615"] {
        assert_eq!(parse_unsigned_token(&chars(s), usize::MAX), s.parse::<usize>().ok());
    }
}

#[test]
fn su2_unit_square() {
    let tree = BaseTree::from_su2(&lines(SQUARE)).unwrap();
    assert_eq!(tree.element_len(), 1);
    let (nodes, elements, starts) = tree.into_parts();
    assert_eq!(elements, vec![0, 1, 3, 2]);
    assert_eq!(starts, vec![0, 4]);
    assert_eq!(nodes.len(), 4);
    assert_eq!(text_of(&nodes[1]), vec!["1.0".to_string(), "0.0".to_string()]);
}

#[test]
fn su2_short_node_line_keeps_fields() {
    let tree = BaseTree::from_su2(&lines("NPOIN= 1\n  5.5  \n")).unwrap();
    let (nodes, _, _) = tree.into_parts();
    assert_eq!(text_of(&nodes[0]), vec!["5.5".to_string()]);
}

#[test]
fn su2_wrong_dimension() {
    let e = BaseTree::from_su2(&lines("NDIME= 3\n")).err().unwrap();
    assert_eq!(e.line, 0);
    assert_eq!(e.kind, Su2ErrorKind::WrongDimension);
}

#[test]
fn su2_missing_value() {
    let e = BaseTree::from_su2(&lines("\nNDIME=2\n")).err().unwrap();
    assert_eq!(e.line, 1);
    assert_eq!(e.kind, Su2ErrorKind::MissingValue);
}

#[test]
fn su2_invalid_numbers() {
    let e = BaseTree::from_su2(&lines("NPOIN= many\n")).err().unwrap();
    assert_eq!(e.kind, Su2ErrorKind::InvalidNumber);
    let e = BaseTree::from_su2(&lines("NELEM= 1\n9 0  1 3 2 0\n")).err().unwrap();
    assert_eq!((e.line, e.kind), (1, Su2ErrorKind::InvalidNumber));
    let e = BaseTree::from_su2(&lines("NELEM= 1\n9\t0 1 3 2 0\n")).err().unwrap();
    assert_eq!((e.line, e.kind), (1, Su2ErrorKind::InvalidNumber));
}

#[test]
fn su2_unsupported_element() {
    let e = BaseTree::from_su2(&lines("NELEM= 1\n5 0 1 2 0\n")).err().unwrap();
    assert_eq!((e.line, e.kind), (1, Su2ErrorKind::UnsupportedElement));
}

#[test]
fn su2_other_sections_are_ignored() {
    let tree = BaseTree::from_su2(&lines("NMARK= 1\n1 2 3\nNDIME= 2\n")).unwrap();
    assert_eq!(tree.element_len(), 0);
}

#[test]
fn su2_element_without_nodes_drops_last_id() {
    let tree = BaseTree::from_su2(&lines("NELEM= 2\n9 0 1 3 2 0\n9\n")).unwrap();
    let (_, elements, starts) = tree.into_parts();
    assert_eq!(elements, vec![0, 1, 3]);
    assert_eq!(starts, vec![0, 4, 3]);
}

#[test]
fn element_corners_and_order() {
    let tree = BaseTree::from_parts(vec![(); 16], vec![0, 1, 2, 3, 4, 5, 6, 7, 8, 9, 10, 11, 12, 13, 14, 15, 7, 3, 1, 5], vec![0, 16, 20]);
    assert_eq!(tree.element_len(), 2);
    let e = tree.element(1);
    assert_eq!(e.elem_nodes(), &[7, 3, 1, 5]);
    assert_eq!(e.corners(), [7, 3, 5, 1]);
    assert_eq!(e.order(), 1);
    assert_eq!(tree.element(0).order(), 3);
    assert_eq!(tree.element(0).all_nodes().len(), 16);
    assert_eq!(*tree.node(3), ());
}

#[test]
fn element_order_rounds_down() {
    let nodes: Vec<usize> = (0..9).collect();
    let tree = BaseTree::from_parts(vec![0u8; 9], nodes, vec![0, 8, 9]);
    assert_eq!(tree.element(0).order(), 1);
    assert_eq!(tree.element(1).order(), 0);
}

#[test]
fn square_roots() {
    assert_eq!(floor_sqrt_capped(0), 0);
    assert_eq!(floor_sqrt_capped(15), 3);
    assert_eq!(floor_sqrt_capped(16), 4);
    assert_eq!(floor_sqrt_capped(65535), 255);
    assert_eq!(floor_sqrt_capped(usize::MAX), 255);
    for n in 1..=4096usize {
        let r = round_sqrt_small(n);
        assert_eq!(r, (n as f64).sqrt().round() as usize);
    }
}

#[test]
fn reorder_first_order_swaps_last_corners() {
    assert_eq!(reorder_raw_vtk_element(vec![10, 11, 12, 13]), vec![10, 11, 13, 12]);
    assert_eq!(reorder_raw_vtk_element(vec![1, 2, 3, 4, 5, 6]), vec![1, 2, 4, 3, 5, 6]);
    let e = vec![4, 8, 15, 16];
    assert_eq!(reorder_raw_vtk_element(reorder_raw_vtk_element(e.clone())), e);
}

#[test]
fn reorder_higher_orders_unchanged() {
    let nine: Vec<usize> = (0..9).collect();
    assert_eq!(reorder_raw_vtk_element(nine.clone()), nine);
    let seven: Vec<usize> = (0..7).collect();
    assert_eq!(reorder_raw_vtk_element(seven.clone()), seven);
    let twenty: Vec<usize> = (0..20).collect();
    assert_eq!(reorder_raw_vtk_element(twenty.clone()), twenty);
}

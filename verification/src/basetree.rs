//! The base (coarse) mesh: a list of nodes and a list of elements, each
//! element given by the nodes of its tensor-product basis.

use vstd::prelude::*;

use crate::consts::{CELL_CORNERS, CELL_FACES};
use std::collections::HashMap;
use crate::roots::{floor_sqrt, floor_sqrt_capped};

verus! {

/// A base tree that describes potentially high order elements; all elements
/// are quadrilaterals. The nodes of element `e` are
/// `elements[element_starts[e]..element_starts[e + 1]]`; `P` is what a node
/// holds (its coordinates).
pub struct BaseTree<P> {
    nodes: Vec<P>,
    elements: Vec<usize>,
    element_starts: Vec<usize>,
}

/// One element of a base tree: the node ids of its basis functions, and the
/// nodes that they refer to.
pub struct Element<'a, P> {
    all_nodes: &'a [P],
    elem_nodes: &'a [usize],
}

impl<P> BaseTree<P> {
    #[verifier::type_invariant]
    spec fn has_starts(&self) -> bool {
        self.element_starts@.len() >= 1
    }

    /// The nodes of the tree.
    pub closed spec fn node_seq(&self) -> Seq<P> {
        self.nodes@
    }

    /// The node ids of all elements, one element after the other.
    pub closed spec fn element_seq(&self) -> Seq<usize> {
        self.elements@
    }

    /// Where each element's node ids start in `element_seq`, and where the
    /// last one ends.
    pub closed spec fn start_seq(&self) -> Seq<usize> {
        self.element_starts@
    }

    /// The number of elements.
    pub open spec fn spec_element_len(&self) -> int {
        self.start_seq().len() - 1
    }

    /// Element `e` has a well-formed node range.
    pub open spec fn element_in_range(&self, e: int) -> bool {
        &&& 0 <= e
        &&& e + 1 < self.start_seq().len()
        &&& self.start_seq()[e] <= self.start_seq()[e + 1] <= self.element_seq().len()
    }

    /// The node ids of element `e`.
    pub open spec fn element_nodes(&self, e: int) -> Seq<usize> {
        self.element_seq().subrange(self.start_seq()[e] as int, self.start_seq()[e + 1] as int)
    }

    /// A tree from its nodes, the node ids of all elements, and where each
    /// element starts among them (followed by where the last one ends).
    pub fn from_parts(nodes: Vec<P>, elements: Vec<usize>, element_starts: Vec<usize>) -> (t:
        Self)
        requires
            element_starts.len() >= 1,
        ensures
            t.node_seq() == nodes@,
            t.element_seq() == elements@,
            t.start_seq() == element_starts@,
    {
        BaseTree { nodes, elements, element_starts }
    }

    /// The unit square as one first order element over four nodes, given in
    /// tensor-product order: (0, 0), (1, 0), (0, 1), (1, 1).
    pub fn new_unitsquare(nodes: Vec<P>) -> (t: Self)
        requires
            nodes@.len() == 4,
        ensures
            t.node_seq() == nodes@,
            t.element_seq() == seq![0usize, 1, 2, 3],
            t.start_seq() == seq![0usize, 4],
    {
        let elements: Vec<usize> = vec![0, 1, 2, 3];
        let element_starts: Vec<usize> = vec![0, 4];
        assert(elements@ =~= seq![0usize, 1, 2, 3]);
        assert(element_starts@ =~= seq![0usize, 4]);
        BaseTree { nodes, elements, element_starts }
    }

    /// The nodes, the node ids of all elements, and the element starts.
    pub fn into_parts(self) -> (parts: (Vec<P>, Vec<usize>, Vec<usize>))
        ensures
            parts.0@ == self.node_seq(),
            parts.1@ == self.element_seq(),
            parts.2@ == self.start_seq(),
    {
        (self.nodes, self.elements, self.element_starts)
    }

    /// The number of nodes.
    pub fn node_len(&self) -> (n: usize)
        ensures
            n == self.node_seq().len(),
    {
        self.nodes.len()
    }

    /// Node `index`.
    pub fn node(&self, index: usize) -> (n: &P)
        requires
            index < self.node_seq().len(),
        ensures
            *n == self.node_seq()[index as int],
    {
        &self.nodes[index]
    }

    /// Whether element `index` exists and has a well-formed node range.
    pub fn element_is_valid(&self, index: usize) -> (b: bool)
        ensures
            b == self.element_in_range(index as int),
    {
        let n = self.element_starts.len();
        if index >= n || n - index < 2 {
            return false;
        }
        let ls = self.element_starts[index];
        let le = self.element_starts[index + 1];
        ls <= le && le <= self.elements.len()
    }

    /// Element `index`.
    pub fn element<'a>(&'a self, index: usize) -> (e: Element<'a, P>)
        requires
            self.element_in_range(index as int),
        ensures
            e.node_ids() == self.element_nodes(index as int),
            e.nodes() == self.node_seq(),
    {
        let n = self.element_starts.len();
        assert(index + 1 < n);
        let ls = self.element_starts[index];
        let le = self.element_starts[index + 1];
        Element {
            all_nodes: self.nodes.as_slice(),
            elem_nodes: vstd::slice::slice_subrange(self.elements.as_slice(), ls, le),
        }
    }

    /// The number of elements.
    pub fn element_len(&self) -> (n: usize)
        ensures
            n as int == self.spec_element_len(),
    {
        proof {
            use_type_invariant(self);
        }
        self.element_starts.len() - 1
    }
}

impl<P: Clone> Clone for BaseTree<P> {
    fn clone(&self) -> (c: Self)
        ensures
            c.element_seq() == self.element_seq(),
            c.start_seq() == self.start_seq(),
            c.node_seq().len() == self.node_seq().len(),
    {
        proof {
            use_type_invariant(self);
        }
        BaseTree {
            nodes: self.nodes.clone(),
            elements: self.elements.clone(),
            element_starts: self.element_starts.clone(),
        }
    }
}

impl<'a, P> Element<'a, P> {
    /// The node ids of the element, in tensor-product order.
    pub closed spec fn node_ids(&self) -> Seq<usize> {
        self.elem_nodes@
    }

    /// All nodes of the tree that the element belongs to.
    pub closed spec fn nodes(&self) -> Seq<P> {
        self.all_nodes@
    }

    /// The node ids of the element.
    pub fn elem_nodes(&self) -> (ids: &'a [usize])
        ensures
            ids@ == self.node_ids(),
    {
        self.elem_nodes
    }

    /// All nodes of the tree that the element belongs to.
    pub fn all_nodes(&self) -> (nodes: &'a [P])
        ensures
            nodes@ == self.nodes(),
    {
        self.all_nodes
    }

    /// The polynomial order of the element: one less than the number of
    /// nodes along an axis, `floor(sqrt(n)) - 1` for `n` nodes (the number of
    /// nodes along an axis is held in a `u8`, so it stops at 255).
    pub fn order(&self) -> (o: u8)
        requires
            self.node_ids().len() >= 1,
        ensures
            o as int == (if floor_sqrt(self.node_ids().len()) < 255 {
                floor_sqrt(self.node_ids().len()) as int
            } else {
                255
            }) - 1,
    {
        let elen = self.elem_nodes.len();
        let blen = floor_sqrt_capped(elen);
        proof {
            crate::roots::lemma_floor_sqrt(elen as nat);
            if floor_sqrt(elen as nat) == 0 {
                assert(1nat * 1nat == 1) by (nonlinear_arith);
            }
        }
        (blen as u8) - 1
    }

    /// The corner node ids of the element, counterclockwise: its nodes 0, 1,
    /// 3 and 2 in tensor-product order.
    pub fn corners(&self) -> (c: [usize; CELL_CORNERS])
        requires
            self.node_ids().len() >= 4,
        ensures
            c[0] == self.node_ids()[0],
            c[1] == self.node_ids()[1],
            c[2] == self.node_ids()[3],
            c[3] == self.node_ids()[2],
    {
        let mut corners = [0usize; CELL_CORNERS];
        corners[0] = self.elem_nodes[0];
        corners[1] = self.elem_nodes[1];
        corners[2] = self.elem_nodes[3];
        corners[3] = self.elem_nodes[2];
        corners
    }
}


/// Where corner `k` (counterclockwise) of an element sits among its nodes
/// in tensor-product order.
pub open spec fn corner_position(k: int) -> int {
    if k == 2 {
        3
    } else if k == 3 {
        2
    } else {
        k
    }
}

/// The values of `s` without repetitions, each where it first occurs.
pub open spec fn distinct_in_order(s: Seq<usize>) -> Seq<usize>
    decreases s.len(),
{
    if s.len() == 0 {
        Seq::empty()
    } else {
        let prev = distinct_in_order(s.drop_last());
        if prev.contains(s.last()) {
            prev
        } else {
            prev.push(s.last())
        }
    }
}

/// The arrays that describe a base tree to the forest library: the node of
/// each vertex, the four vertices of each tree, and each tree's neighbour
/// and neighbour face across each of its four faces.
pub struct ConnectivityLayout {
    pub vertex_nodes: Vec<usize>,
    pub tree_to_vertex: Vec<i32>,
    pub tree_to_tree: Vec<i32>,
    pub tree_to_face: Vec<i8>,
}

impl<P> BaseTree<P> {
    /// Node id of corner `k` of element `e`.
    pub open spec fn corner_node(&self, e: int, k: int) -> usize {
        self.element_nodes(e)[corner_position(k)]
    }

    /// The corner nodes of all elements, four per element, element by element.
    pub open spec fn corner_sequence(&self) -> Seq<usize> {
        Seq::new(
            (CELL_CORNERS * self.spec_element_len()) as nat,
            |m: int| self.corner_node(m / CELL_CORNERS as int, m % CELL_CORNERS as int),
        )
    }

    /// `v` is the node at a corner of some element.
    pub open spec fn is_corner_node(&self, v: usize) -> bool {
        exists|e: int, k: int|
            0 <= e < self.spec_element_len() && 0 <= k < CELL_CORNERS && #[trigger] self.corner_node(e, k) == v
    }

    /// Every element has a well-formed node range with at least four nodes.
    pub open spec fn elements_have_corners(&self) -> bool {
        forall|e: int|
            0 <= e < self.spec_element_len() ==> #[trigger] self.element_in_range(e)
                && self.element_nodes(e).len() >= 4
    }

    /// The connectivity of the tree: its vertices are the distinct corner
    /// nodes of its elements in the order they first occur, each tree (element) lists the vertices at its
    /// four corners, and each tree is its own neighbour across each face.
    pub fn build_connectivity(&self) -> (c: ConnectivityLayout)
        requires
            self.elements_have_corners(),
            CELL_CORNERS * self.spec_element_len() <= i32::MAX,
        ensures
            c.vertex_nodes@ == distinct_in_order(self.corner_sequence()),
            forall|i: int, j: int|
                0 <= i < j < c.vertex_nodes@.len() ==> c.vertex_nodes@[i] != c.vertex_nodes@[j],
            forall|i: int|
                0 <= i < c.vertex_nodes@.len() ==> self.is_corner_node(#[trigger] c.vertex_nodes@[i]),
            c.tree_to_vertex@.len() == CELL_CORNERS * self.spec_element_len(),
            forall|e: int, k: int|
                0 <= e < self.spec_element_len() && 0 <= k < CELL_CORNERS ==> {
                    let v = #[trigger] c.tree_to_vertex@[CELL_CORNERS * e + k];
                    &&& 0 <= v < c.vertex_nodes@.len()
                    &&& c.vertex_nodes@[v as int] == self.corner_node(e, k)
                },
            c.tree_to_tree@.len() == CELL_FACES * self.spec_element_len(),
            c.tree_to_face@.len() == CELL_FACES * self.spec_element_len(),
            forall|t: int, f: int|
                0 <= t < self.spec_element_len() && 0 <= f < CELL_FACES ==> {
                    &&& #[trigger] c.tree_to_tree@[CELL_FACES * t + f] == t
                    &&& c.tree_to_face@[CELL_FACES * t + f] == f
                },
    {
        broadcast use vstd::std_specs::hash::group_hash_axioms;

        let ne = self.element_len();
        let mut global_to_corner: HashMap<usize, usize> = HashMap::new();
        let mut vertex_nodes: Vec<usize> = Vec::new();
        let mut e: usize = 0;
        while e < ne
            invariant
                e <= ne,
                ne as int == self.spec_element_len(),
                self.elements_have_corners(),
                CELL_CORNERS * self.spec_element_len() <= i32::MAX,
                vertex_nodes@.len() <= CELL_CORNERS * e,
                vertex_nodes@ == distinct_in_order(self.corner_sequence().take(CELL_CORNERS * e)),
                forall|v: usize| #[trigger]
                    global_to_corner@.contains_key(v) ==> global_to_corner@[v]
                        < vertex_nodes@.len() && vertex_nodes@[global_to_corner@[v] as int] == v,
                forall|i: int|
                    0 <= i < vertex_nodes@.len() ==> global_to_corner@.contains_key(
                        #[trigger] vertex_nodes@[i],
                    ) && global_to_corner@[vertex_nodes@[i]] == i,
                forall|i: int|
                    0 <= i < vertex_nodes@.len() ==> self.is_corner_node(#[trigger] vertex_nodes@[i]),
                forall|e2: int, k2: int|
                    0 <= e2 < e && 0 <= k2 < CELL_CORNERS ==> global_to_corner@.contains_key(
                        #[trigger] self.corner_node(e2, k2),
                    ),
            decreases ne - e,
        {
            assert(self.element_in_range(e as int));
            let corners = self.element(e).corners();
            let mut k: usize = 0;
            while k < CELL_CORNERS
                invariant
                    e < ne,
                    k <= CELL_CORNERS,
                    ne as int == self.spec_element_len(),
                    self.elements_have_corners(),
                    CELL_CORNERS * self.spec_element_len() <= i32::MAX,
                    forall|k2: int| 0 <= k2 < CELL_CORNERS ==> corners[k2] == self.corner_node(e as int, k2),
                    vertex_nodes@.len() <= CELL_CORNERS * e + k,
                    vertex_nodes@ == distinct_in_order(self.corner_sequence().take(CELL_CORNERS * e + k)),
                    forall|v: usize| #[trigger]
                        global_to_corner@.contains_key(v) ==> global_to_corner@[v]
                            < vertex_nodes@.len() && vertex_nodes@[global_to_corner@[v] as int] == v,
                    forall|i: int|
                        0 <= i < vertex_nodes@.len() ==> global_to_corner@.contains_key(
                            #[trigger] vertex_nodes@[i],
                        ) && global_to_corner@[vertex_nodes@[i]] == i,
                    forall|i: int|
                        0 <= i < vertex_nodes@.len() ==> self.is_corner_node(#[trigger] vertex_nodes@[i]),
                    forall|e2: int, k2: int|
                        (0 <= e2 < e && 0 <= k2 < CELL_CORNERS) || (e2 == e && 0 <= k2 < k)
                            ==> global_to_corner@.contains_key(#[trigger] self.corner_node(e2, k2)),
                decreases CELL_CORNERS - k,
            {
                let c = corners[k];
                let ghost m = CELL_CORNERS * e + k;
                proof {
                    let cs = self.corner_sequence();
                    assert(m / 4 == e && m % 4 == k);
                    assert(cs.take(m + 1).drop_last() =~= cs.take(m));
                    assert(cs.take(m + 1).last() == c);
                    if vertex_nodes@.contains(c) {
                        let i = choose|i: int| 0 <= i < vertex_nodes@.len() && vertex_nodes@[i] == c;
                        assert(global_to_corner@.contains_key(vertex_nodes@[i]));
                    }
                    if global_to_corner@.contains_key(c) {
                        assert(vertex_nodes@[global_to_corner@[c] as int] == c);
                    }
                }
                if !global_to_corner.contains_key(&c) {
                    let idx = vertex_nodes.len();
                    global_to_corner.insert(c, idx);
                    vertex_nodes.push(c);
                    assert(self.corner_node(e as int, k as int) == vertex_nodes@[idx as int]);
                }
                k = k + 1;
            }
            e = e + 1;
        }
        proof {
            assert(self.corner_sequence().take(CELL_CORNERS * ne) =~= self.corner_sequence());
            assert forall|i: int, j: int|
                0 <= i < j < vertex_nodes@.len() implies vertex_nodes@[i] != vertex_nodes@[j] by {
                assert(global_to_corner@[vertex_nodes@[i]] == i);
                assert(global_to_corner@[vertex_nodes@[j]] == j);
            }
        }
        let mut tree_to_vertex: Vec<i32> = Vec::new();
        let mut e: usize = 0;
        while e < ne
            invariant
                e <= ne,
                ne as int == self.spec_element_len(),
                self.elements_have_corners(),
                CELL_CORNERS * self.spec_element_len() <= i32::MAX,
                vertex_nodes@.len() <= CELL_CORNERS * ne,
                forall|v: usize| #[trigger]
                    global_to_corner@.contains_key(v) ==> global_to_corner@[v]
                        < vertex_nodes@.len() && vertex_nodes@[global_to_corner@[v] as int] == v,
                forall|e2: int, k2: int|
                    0 <= e2 < ne && 0 <= k2 < CELL_CORNERS ==> global_to_corner@.contains_key(
                        #[trigger] self.corner_node(e2, k2),
                    ),
                tree_to_vertex@.len() == CELL_CORNERS * e,
                forall|e2: int, k2: int|
                    0 <= e2 < e && 0 <= k2 < CELL_CORNERS ==> {
                        let v = #[trigger] tree_to_vertex@[CELL_CORNERS * e2 + k2];
                        &&& 0 <= v < vertex_nodes@.len()
                        &&& vertex_nodes@[v as int] == self.corner_node(e2, k2)
                    },
            decreases ne - e,
        {
            assert(self.element_in_range(e as int));
            let corners = self.element(e).corners();
            let mut k: usize = 0;
            while k < CELL_CORNERS
                invariant
                    e < ne,
                    k <= CELL_CORNERS,
                    ne as int == self.spec_element_len(),
                    CELL_CORNERS * self.spec_element_len() <= i32::MAX,
                    vertex_nodes@.len() <= CELL_CORNERS * ne,
                    forall|k2: int| 0 <= k2 < CELL_CORNERS ==> corners[k2] == self.corner_node(e as int, k2),
                    forall|v: usize| #[trigger]
                        global_to_corner@.contains_key(v) ==> global_to_corner@[v]
                            < vertex_nodes@.len() && vertex_nodes@[global_to_corner@[v] as int] == v,
                    forall|e2: int, k2: int|
                        0 <= e2 < ne && 0 <= k2 < CELL_CORNERS ==> global_to_corner@.contains_key(
                            #[trigger] self.corner_node(e2, k2),
                        ),
                    tree_to_vertex@.len() == CELL_CORNERS * e + k,
                    forall|e2: int, k2: int|
                        (0 <= e2 < e && 0 <= k2 < CELL_CORNERS) || (e2 == e && 0 <= k2 < k) ==> {
                            let v = #[trigger] tree_to_vertex@[CELL_CORNERS * e2 + k2];
                            &&& 0 <= v < vertex_nodes@.len()
                            &&& vertex_nodes@[v as int] == self.corner_node(e2, k2)
                        },
                decreases CELL_CORNERS - k,
            {
                let c = corners[k];
                assert(global_to_corner@.contains_key(self.corner_node(e as int, k as int)));
                let local_node = match global_to_corner.get(&c) {
                    Some(v) => *v,
                    None => 0,
                };
                assert(local_node < vertex_nodes@.len());
                tree_to_vertex.push(local_node as i32);
                k = k + 1;
            }
            e = e + 1;
        }
        let mut tree_to_tree: Vec<i32> = Vec::new();
        let mut tree_to_face: Vec<i8> = Vec::new();
        let mut t: usize = 0;
        while t < ne
            invariant
                t <= ne,
                ne as int == self.spec_element_len(),
                CELL_CORNERS * self.spec_element_len() <= i32::MAX,
                tree_to_tree@.len() == CELL_FACES * t,
                tree_to_face@.len() == CELL_FACES * t,
                forall|t2: int, f2: int|
                    0 <= t2 < t && 0 <= f2 < CELL_FACES ==> {
                        &&& #[trigger] tree_to_tree@[CELL_FACES * t2 + f2] == t2
                        &&& tree_to_face@[CELL_FACES * t2 + f2] == f2
                    },
            decreases ne - t,
        {
            let mut f: usize = 0;
            while f < CELL_FACES
                invariant
                    t < ne,
                    f <= CELL_FACES,
                    ne as int == self.spec_element_len(),
                    CELL_CORNERS * self.spec_element_len() <= i32::MAX,
                    tree_to_tree@.len() == CELL_FACES * t + f,
                    tree_to_face@.len() == CELL_FACES * t + f,
                    forall|t2: int, f2: int|
                        (0 <= t2 < t && 0 <= f2 < CELL_FACES) || (t2 == t && 0 <= f2 < f) ==> {
                            &&& #[trigger] tree_to_tree@[CELL_FACES * t2 + f2] == t2
                            &&& tree_to_face@[CELL_FACES * t2 + f2] == f2
                        },
                decreases CELL_FACES - f,
            {
                tree_to_tree.push(t as i32);
                tree_to_face.push(f as i8);
                f = f + 1;
            }
            t = t + 1;
        }
        ConnectivityLayout { vertex_nodes, tree_to_vertex, tree_to_tree, tree_to_face }
    }
}

} // verus!

//! Numbering of the nodes of a mesh from its faces.
//!
//! Each corner of each face gets a node id of its own, in the order the
//! faces are visited: corner `i` of face `f` is node `2 f + i`. A cell's
//! nodes are those of the faces that it touches. A node is also found again
//! by its key: its integer coordinates together with its tree; when several
//! corners share a key, the key names the last of them.

use vstd::prelude::*;

use crate::consts::{DIM, FACE_CORNERS};
use std::collections::HashMap;

verus! {

/// What the numbering reads of one face: the integer coordinates of its
/// corners, their positions, the side (0 or 1) that owns the face, the
/// trees of its cells, and the local ids of its cells.
#[derive(Clone, Copy)]
pub struct NodeFace<P> {
    pub corners_int: [[u32; DIM]; FACE_CORNERS],
    pub corners: [P; FACE_CORNERS],
    pub face_id_side: u8,
    pub tree0: i32,
    pub tree1: Option<i32>,
    pub cell0: usize,
    pub cell1: Option<usize>,
}

/// The node numbering of a mesh.
pub struct NodeNumbering<P> {
    node_map: HashMap<u128, u32>,
    node_positions: Vec<P>,
    cell_nodes: Vec<usize>,
    cell_nodes_starts: Vec<usize>,
}

/// The key of a point with integer coordinates `c` in tree `tree`: the four
/// 32-bit words `c[0]`, `c[1]`, `u32::MAX` (no third coordinate) and
/// `tree`, lowest first.
pub open spec fn node_key(c: [u32; DIM], tree: u32) -> u128 {
    (c[0] as int + c[1] as int * 0x1_0000_0000 + u32::MAX as int * 0x1_0000_0000_0000_0000
        + tree as int * 0x1_0000_0000_0000_0000_0000_0000) as u128
}

/// The tree that a face's nodes are keyed by: that of the cell on the side
/// that owns the face.
pub open spec fn face_tree<P>(f: NodeFace<P>) -> Option<u32> {
    if f.face_id_side == 0 {
        Some(f.tree0 as u32)
    } else {
        match f.tree1 {
            Some(t) => Some(t as u32),
            None => None,
        }
    }
}

/// The key of corner `i` of face `f`.
pub open spec fn corner_key<P>(f: NodeFace<P>, i: int) -> u128 {
    node_key(f.corners_int[i], face_tree(f)->0)
}

/// The key of node `n`.
pub open spec fn key_of_node<P>(faces: Seq<NodeFace<P>>, n: int) -> u128 {
    corner_key(faces[n / 2], n % 2)
}

/// The key map after numbering the first `m` nodes: each key to the last
/// node with that key.
pub open spec fn key_map<P>(faces: Seq<NodeFace<P>>, m: nat) -> Map<u128, u32>
    decreases m,
{
    if m == 0 {
        Map::empty()
    } else {
        key_map(faces, (m - 1) as nat).insert(key_of_node(faces, m - 1), (m - 1) as u32)
    }
}

/// Face `f` has cell `k` on one of its sides.
pub open spec fn touches<P>(f: NodeFace<P>, k: int) -> bool {
    f.cell0 == k || f.cell1 == Some(k as usize)
}

/// The nodes of cell `k` among the first `m` nodes, in increasing order.
pub open spec fn cell_node_list<P>(faces: Seq<NodeFace<P>>, k: int, m: nat) -> Seq<usize>
    decreases m,
{
    if m == 0 {
        Seq::empty()
    } else {
        let prev = cell_node_list(faces, k, (m - 1) as nat);
        if touches(faces[(m - 1) / 2], k) {
            prev.push((m - 1) as usize)
        } else {
            prev
        }
    }
}

/// The position of node `n`.
pub open spec fn node_position<P>(faces: Seq<NodeFace<P>>, n: int) -> P {
    faces[n / 2].corners[n % 2]
}

/// The faces can be numbered into `cell_count` cells: their cells exist,
/// and the tree that keys their nodes is known.
pub open spec fn faces_fit<P>(cell_count: int, faces: Seq<NodeFace<P>>) -> bool {
    forall|f: int|
        0 <= f < faces.len() ==> {
            &&& (#[trigger] faces[f]).cell0 < cell_count
            &&& (faces[f].cell1 matches Some(c1) ==> c1 < cell_count)
            &&& face_tree(faces[f]) is Some
        }
}

/// The key of integer coordinates `c` in tree `tree`.
pub fn point_key(c: [u32; DIM], tree: u32) -> (key: u128)
    ensures
        key == node_key(c, tree),
{
    (c[0] as u128) + (c[1] as u128) * 0x1_0000_0000 + (u32::MAX as u128) * 0x1_0000_0000_0000_0000
        + (tree as u128) * 0x1_0000_0000_0000_0000_0000_0000
}

/// The tree that keys a face's nodes.
pub fn tree_of_face<P>(f: &NodeFace<P>) -> (t: Option<u32>)
    ensures
        t == face_tree(*f),
{
    if f.face_id_side == 0 {
        Some(f.tree0 as u32)
    } else {
        match f.tree1 {
            Some(t) => Some(t as u32),
            None => None,
        }
    }
}

impl<P> NodeNumbering<P> {
    #[verifier::type_invariant]
    spec fn starts_wf(&self) -> bool {
        &&& self.cell_nodes_starts@.len() >= 1
        &&& self.cell_nodes_starts@[0] == 0
        &&& forall|k: int|
            0 <= k < self.cell_nodes_starts@.len() - 1 ==> #[trigger] self.cell_nodes_starts@[k]
                <= self.cell_nodes_starts@[k + 1]
        &&& self.cell_nodes_starts@.last() == self.cell_nodes@.len()
    }

    /// The map from node keys to node ids.
    pub closed spec fn key_map_view(&self) -> Map<u128, u32> {
        self.node_map@
    }

    /// The position of each node.
    pub closed spec fn position_seq(&self) -> Seq<P> {
        self.node_positions@
    }

    /// The number of cells.
    pub closed spec fn cell_count(&self) -> int {
        self.cell_nodes_starts@.len() - 1
    }

    /// The nodes of cell `k`.
    pub closed spec fn nodes_of_cell(&self, k: int) -> Seq<usize> {
        self.cell_nodes@.subrange(
            self.cell_nodes_starts@[k] as int,
            self.cell_nodes_starts@[k + 1] as int,
        )
    }

}

impl<P: Copy> NodeNumbering<P> {
    /// Numbers the nodes of the faces of a mesh with `cell_count` cells
    /// (ghosts included), the faces in the order they are visited.
    pub fn new(cell_count: usize, faces: &Vec<NodeFace<P>>) -> (nn: Self)
        requires
            faces_fit(cell_count as int, faces@),
            FACE_CORNERS * faces@.len() <= u32::MAX,
        ensures
            nn.key_map_view() == key_map(faces@, (FACE_CORNERS * faces@.len()) as nat),
            nn.position_seq() == Seq::new(
                (FACE_CORNERS * faces@.len()) as nat,
                |n: int| node_position(faces@, n),
            ),
            nn.cell_count() == cell_count,
            forall|k: int|
                0 <= k < cell_count ==> #[trigger] nn.nodes_of_cell(k) == cell_node_list(
                    faces@,
                    k,
                    (FACE_CORNERS * faces@.len()) as nat,
                ),
    {
        broadcast use vstd::std_specs::hash::group_hash_axioms;

        let mut lists: Vec<Vec<usize>> = Vec::new();
        let mut k: usize = 0;
        while k < cell_count
            invariant
                k <= cell_count,
                lists@.len() == k,
                forall|j: int| 0 <= j < k ==> (#[trigger] lists@[j])@ == Seq::<usize>::empty(),
            decreases cell_count - k,
        {
            lists.push(Vec::new());
            k = k + 1;
        }
        let total = FACE_CORNERS * faces.len();
        let mut node_map: HashMap<u128, u32> = HashMap::new();
        let mut node_positions: Vec<P> = Vec::new();
        let mut n: usize = 0;
        assert(key_map(faces@, 0) == node_map@);
        while n < total
            invariant
                n <= total == (FACE_CORNERS * faces@.len()) as nat,
                total <= u32::MAX,
                faces_fit(cell_count as int, faces@),
                lists@.len() == cell_count,
                forall|j: int|
                    0 <= j < cell_count ==> (#[trigger] lists@[j])@ == cell_node_list(
                        faces@,
                        j,
                        n as nat,
                    ),
                node_map@ == key_map(faces@, n as nat),
                node_positions@ == Seq::new(n as nat, |m: int| node_position(faces@, m)),
            decreases total - n,
        {
            let f = n / 2;
            let i = n % 2;
            let face = &faces[f];
            assert(faces@[f as int] == *face);
            let tree = match tree_of_face(face) {
                Some(t) => t,
                None => 0,
            };
            let key = point_key(face.corners_int[i], tree);
            assert(key == key_of_node(faces@, n as int));
            let c0 = face.cell0;
            let ghost before = lists@;
            lists[c0].push(n);
            match face.cell1 {
                Some(c1) => {
                    if c1 != c0 {
                        lists[c1].push(n);
                    }
                },
                None => {},
            }
            assert forall|j: int| 0 <= j < cell_count implies (#[trigger] lists@[j])@
                == cell_node_list(faces@, j, (n + 1) as nat) by {
                assert(cell_node_list(faces@, j, (n + 1) as nat) == if touches(faces@[f as int], j) {
                    before[j]@.push(n)
                } else {
                    before[j]@
                });
            }
            node_map.insert(key, n as u32);
            let ghost old_positions = node_positions@;
            node_positions.push(face.corners[i]);
            assert(node_positions@ =~= Seq::new((n + 1) as nat, |m: int| node_position(faces@, m)))
                by {
                assert(old_positions =~= Seq::new(n as nat, |m: int| node_position(faces@, m)));
            }
            n = n + 1;
        }
        let (cell_nodes, cell_nodes_starts) = flatten_lists(&lists);
        NodeNumbering { node_map, node_positions, cell_nodes, cell_nodes_starts }
    }
}

impl<P> NodeNumbering<P> {

    /// The number of cells.
    pub fn cell_len(&self) -> (n: usize)
        ensures
            n == self.cell_count(),
    {
        proof {
            use_type_invariant(self);
        }
        self.cell_nodes_starts.len() - 1
    }

    /// The nodes of the cell with local id `local_id`.
    pub fn cell_nodes(&self, local_id: usize) -> (nodes: &[usize])
        requires
            local_id < self.cell_count(),
        ensures
            nodes@ == self.nodes_of_cell(local_id as int),
    {
        proof {
            use_type_invariant(self);
        }
        let count = self.cell_nodes_starts.len();
        assert(local_id + 1 < count);
        let a = self.cell_nodes_starts[local_id];
        let b = self.cell_nodes_starts[local_id + 1];
        assert(b <= self.cell_nodes@.len()) by {
            assert forall|j: int| local_id + 1 <= j < self.cell_nodes_starts@.len() implies #[trigger] self.cell_nodes_starts@[j] <= self.cell_nodes@.len() by {
                lemma_starts_bounded(self.cell_nodes_starts@, j);
            }
        }
        vstd::slice::slice_subrange(self.cell_nodes.as_slice(), a, b)
    }

    /// The node ids at the corners of a face, found by their keys; `None`
    /// when the tree that keys the face is not known or a corner has no node.
    pub fn face_nodes(&self, face: &NodeFace<P>) -> (ids: Option<[usize; FACE_CORNERS]>)
        ensures
            match ids {
                Some(ids) => {
                    &&& face_tree(*face) is Some
                    &&& forall|i: int|
                        0 <= i < FACE_CORNERS ==> {
                            &&& self.key_map_view().contains_key(#[trigger] corner_key(*face, i))
                            &&& ids[i] == self.key_map_view()[corner_key(*face, i)]
                        }
                },
                None => face_tree(*face) is None || exists|i: int|
                    0 <= i < FACE_CORNERS && !self.key_map_view().contains_key(
                        #[trigger] corner_key(*face, i),
                    ),
            },
    {
        broadcast use vstd::std_specs::hash::group_hash_axioms;

        let tree = match tree_of_face(face) {
            Some(t) => t,
            None => {
                return None;
            },
        };
        let mut out = [usize::MAX; FACE_CORNERS];
        let mut i: usize = 0;
        while i < FACE_CORNERS
            invariant
                i <= FACE_CORNERS,
                face_tree(*face) == Some(tree),
                forall|j: int|
                    0 <= j < i ==> {
                        &&& self.key_map_view().contains_key(#[trigger] corner_key(*face, j))
                        &&& out[j] == self.key_map_view()[corner_key(*face, j)]
                    },
            decreases FACE_CORNERS - i,
        {
            let key = point_key(face.corners_int[i], tree);
            assert(key == corner_key(*face, i as int));
            match self.node_map.get(&key) {
                Some(n) => {
                    out[i] = *n as usize;
                },
                None => {
                    return None;
                },
            }
            i = i + 1;
        }
        Some(out)
    }
}

/// The lists one after the other, and where each starts (followed by the
/// end of the last).
fn flatten_lists(lists: &Vec<Vec<usize>>) -> (r: (Vec<usize>, Vec<usize>))
    ensures
        r.1@.len() == lists@.len() + 1,
        r.1@[0] == 0,
        r.1@.last() == r.0@.len(),
        forall|j: int| 0 <= j < lists@.len() ==> #[trigger] r.1@[j] <= r.1@[j + 1],
        forall|j: int|
            0 <= j < lists@.len() ==> r.0@.subrange(#[trigger] r.1@[j] as int, r.1@[j + 1] as int)
                == lists@[j]@,
{
    let mut cell_nodes: Vec<usize> = Vec::new();
    let mut starts: Vec<usize> = Vec::new();
    starts.push(0);
    let mut k: usize = 0;
    while k < lists.len()
        invariant
            k <= lists@.len(),
            starts@.len() == k + 1,
            starts@[0] == 0,
            starts@.last() == cell_nodes@.len(),
            forall|j: int| 0 <= j < k ==> #[trigger] starts@[j] <= starts@[j + 1],
            forall|j: int|
                0 <= j < k ==> cell_nodes@.subrange(#[trigger] starts@[j] as int, starts@[j + 1] as int)
                    == lists@[j]@,
        decreases lists.len() - k,
    {
        let list = &lists[k];
        let ghost before = cell_nodes@;
        let ghost starts_before = starts@;
        let mut m: usize = 0;
        while m < list.len()
            invariant
                m <= list@.len(),
                cell_nodes@ == before + list@.subrange(0, m as int),
            decreases list.len() - m,
        {
            cell_nodes.push(list[m]);
            assert(list@.subrange(0, m as int + 1) =~= list@.subrange(0, m as int).push(list@[m as int]));
            m = m + 1;
        }
        assert(list@.subrange(0, list@.len() as int) =~= list@);
        let len = cell_nodes.len();
        starts.push(len);
        assert forall|j: int| 0 <= j < k + 1 implies cell_nodes@.subrange(
            #[trigger] starts@[j] as int,
            starts@[j + 1] as int,
        ) == lists@[j]@ by {
            if j < k {
                lemma_starts_bounded(starts_before, j + 1);
                assert(starts@[j] == starts_before[j]);
                assert(starts@[j + 1] == starts_before[j + 1]);
                assert(cell_nodes@.subrange(starts@[j] as int, starts@[j + 1] as int)
                    =~= before.subrange(starts_before[j] as int, starts_before[j + 1] as int));
            } else {
                assert(cell_nodes@.subrange(starts@[j] as int, starts@[j + 1] as int) =~= list@);
            }
        }
        k = k + 1;
    }
    (cell_nodes, starts)
}

proof fn lemma_starts_bounded(starts: Seq<usize>, j: int)
    requires
        starts.len() >= 1,
        forall|k: int| 0 <= k < starts.len() - 1 ==> #[trigger] starts[k] <= starts[k + 1],
        0 <= j < starts.len(),
    ensures
        starts[j] <= starts.last(),
    decreases starts.len() - j,
{
    if j < starts.len() - 1 {
        lemma_starts_bounded(starts, j + 1);
    }
}


/// Law: the nodes of a cell are exactly the nodes of the faces that touch
/// it, each once, in increasing order.
pub proof fn lemma_cell_node_list<P>(faces: Seq<NodeFace<P>>, k: int, m: nat)
    requires
        m <= FACE_CORNERS * faces.len(),
        m <= usize::MAX,
    ensures
        forall|n: int|
            0 <= n < m ==> (cell_node_list(faces, k, m).contains(n as usize) <==> touches(
                #[trigger] faces[n / 2],
                k,
            )),
        forall|v: usize| cell_node_list(faces, k, m).contains(v) ==> v < m,
        forall|a: int, b: int|
            0 <= a < b < cell_node_list(faces, k, m).len() ==> cell_node_list(faces, k, m)[a]
                < cell_node_list(faces, k, m)[b],
    decreases m,
{
    if m > 0 {
        let prev = cell_node_list(faces, k, (m - 1) as nat);
        lemma_cell_node_list(faces, k, (m - 1) as nat);
        let cur = cell_node_list(faces, k, m);
        assert forall|n: int| 0 <= n < m implies (cur.contains(n as usize) <==> touches(
            #[trigger] faces[n / 2],
            k,
        )) by {
            if n < m - 1 {
                if cur.contains(n as usize) && !prev.contains(n as usize) {
                    let i = choose|i: int| 0 <= i < cur.len() && cur[i] == n as usize;
                    assert(i == prev.len());
                }
                if prev.contains(n as usize) {
                    let i = choose|i: int| 0 <= i < prev.len() && prev[i] == n as usize;
                    assert(cur[i] == n as usize);
                }
            } else {
                if touches(faces[(m - 1) / 2], k) {
                    assert(cur[prev.len() as int] == n as usize);
                } else if cur.contains(n as usize) {
                    assert(prev.contains(n as usize));
                }
            }
        }
        assert forall|v: usize| cur.contains(v) implies v < m by {
            if !prev.contains(v) {
                let i = choose|i: int| 0 <= i < cur.len() && cur[i] == v;
                assert(i == prev.len());
            }
        }
        assert forall|a: int, b: int| 0 <= a < b < cur.len() implies cur[a] < cur[b] by {
            if b == prev.len() && touches(faces[(m - 1) / 2], k) {
                assert(prev.contains(prev[a]));
            }
        }
    }
}

/// Law: after numbering the first `m` nodes, a key is known exactly when
/// one of them carries it, and it names the last node that does.
pub proof fn lemma_key_map<P>(faces: Seq<NodeFace<P>>, m: nat, key: u128)
    requires
        m <= u32::MAX + 1,
    ensures
        key_map(faces, m).contains_key(key) <==> exists|n: int|
            0 <= n < m && #[trigger] key_of_node(faces, n) == key,
        key_map(faces, m).contains_key(key) ==> {
            let v = key_map(faces, m)[key] as int;
            &&& 0 <= v < m
            &&& key_of_node(faces, v) == key
            &&& forall|n: int| v < n < m ==> #[trigger] key_of_node(faces, n) != key
        },
    decreases m,
{
    if m > 0 {
        lemma_key_map(faces, (m - 1) as nat, key);
        if key_of_node(faces, m - 1) == key {
            assert(key_map(faces, m)[key] == (m - 1) as u32);
        } else if key_map(faces, m).contains_key(key) {
            assert(key_map(faces, (m - 1) as nat).contains_key(key));
            let n = choose|n: int| 0 <= n < m - 1 && #[trigger] key_of_node(faces, n) == key;
        }
    }
}

/// Law: every corner of a numbered face is found again by its key, and the
/// node that the key names carries that key.
pub proof fn lemma_numbered_corner_found<P>(faces: Seq<NodeFace<P>>, f: int, i: int)
    requires
        0 <= f < faces.len(),
        0 <= i < FACE_CORNERS,
        FACE_CORNERS * faces.len() <= u32::MAX,
    ensures
        ({
            let map = key_map(faces, (FACE_CORNERS * faces.len()) as nat);
            let key = corner_key(faces[f], i);
            &&& map.contains_key(key)
            &&& key_of_node(faces, map[key] as int) == key
            &&& map[key] >= FACE_CORNERS * f + i
        }),
{
    let m = (FACE_CORNERS * faces.len()) as nat;
    let key = corner_key(faces[f], i);
    let n = 2 * f + i;
    assert(n / 2 == f && n % 2 == i);
    assert(key_of_node(faces, n) == key);
    lemma_key_map(faces, m, key);
}

/// Law: two points have the same key only if they have the same integer
/// coordinates and the same tree.
pub proof fn lemma_node_key_injective(c: [u32; DIM], t: u32, d: [u32; DIM], u: u32)
    requires
        node_key(c, t) == node_key(d, u),
    ensures
        c[0] == d[0],
        c[1] == d[1],
        t == u,
{
    let x = c[0] as int + c[1] as int * 0x1_0000_0000 + u32::MAX as int * 0x1_0000_0000_0000_0000
        + t as int * 0x1_0000_0000_0000_0000_0000_0000;
    let y = d[0] as int + d[1] as int * 0x1_0000_0000 + u32::MAX as int * 0x1_0000_0000_0000_0000
        + u as int * 0x1_0000_0000_0000_0000_0000_0000;
    assert(x < 0x1_0000_0000_0000_0000_0000_0000_0000_0000);
    assert(y < 0x1_0000_0000_0000_0000_0000_0000_0000_0000);
    assert(x == y);
    assert(t == u) by (nonlinear_arith)
        requires
            x == y,
            x == c[0] as int + c[1] as int * 0x1_0000_0000 + u32::MAX as int * 0x1_0000_0000_0000_0000
                + t as int * 0x1_0000_0000_0000_0000_0000_0000,
            y == d[0] as int + d[1] as int * 0x1_0000_0000 + u32::MAX as int * 0x1_0000_0000_0000_0000
                + u as int * 0x1_0000_0000_0000_0000_0000_0000,
            c[0] <= u32::MAX, c[1] <= u32::MAX, d[0] <= u32::MAX, d[1] <= u32::MAX,
    ;
    assert(c[1] == d[1]) by (nonlinear_arith)
        requires
            c[0] as int + c[1] as int * 0x1_0000_0000 == d[0] as int + d[1] as int * 0x1_0000_0000,
            c[0] <= u32::MAX, d[0] <= u32::MAX,
    ;
}


/// The tree of the cell on the side that owns the face, when that cell exists.
pub open spec fn owner_tree<P>(f: NodeFace<P>) -> Option<i32> {
    if f.face_id_side == 0 {
        Some(f.tree0)
    } else {
        f.tree1
    }
}

/// Law: a face's corners are keyed by the tree of the cell on its owning
/// side (its first cell for side 0, its second cell otherwise), and by
/// their own integer coordinates.
pub proof fn lemma_corner_keys_use_owner_tree<P>(f: NodeFace<P>, i: int)
    requires
        0 <= i < FACE_CORNERS,
    ensures
        f.face_id_side == 0 ==> face_tree(f) == Some(f.tree0 as u32),
        f.face_id_side != 0 ==> match f.tree1 {
            Some(t) => face_tree(f) == Some(t as u32),
            None => face_tree(f) is None,
        },
        owner_tree(f) matches Some(t) ==> corner_key(f, i) == node_key(f.corners_int[i], t as u32),
{
}

/// Law: corners of two faces whose owning cells lie in different trees
/// never share a key, so numbering one never hides the other's nodes.
pub proof fn lemma_keys_separate_trees<P>(f: NodeFace<P>, g: NodeFace<P>, i: int, j: int)
    requires
        0 <= i < FACE_CORNERS,
        0 <= j < FACE_CORNERS,
        owner_tree(f) matches Some(t) && owner_tree(g) matches Some(u) && t != u,
    ensures
        corner_key(f, i) != corner_key(g, j),
{
    let t = owner_tree(f)->0;
    let u = owner_tree(g)->0;
    if corner_key(f, i) == corner_key(g, j) {
        lemma_node_key_injective(f.corners_int[i], t as u32, g.corners_int[j], u as u32);
        assert(t as u32 == u as u32);
        assert(t as u32 == u as u32 ==> t == u) by (bit_vector);
    }
}

} // verus!

//! Dual contouring over the octree: the walk that visits every leaf once
//! and, for every minimal edge that crosses the surface, the quad of the
//! four leaves around it.
//!
//! The walk goes from each node to its children, from each face between two
//! nodes to the faces between their children, and from each edge between
//! four nodes to the halves of that edge; a leaf stands in for its own
//! children. It yields its visits in order; the code that builds the mesh
//! reads them.
use vstd::prelude::*;
use crate::dc_octree::{Node, NodeType, Octree, OctreeProxy, VoxelMaterialType};
use crate::dc_tables::{
    subnode_face_pairs, face_subnode_pairs, subnode_edge_groups, face_edge_axes, face_edge_nodes,
    subedge_nodes, edge_node_vertices, subnode_faces_neighbor_pair, faces_subnodes_neighbor_pair,
    subnode_edges_neighbor_group, face_to_sub_edges_axis_type, faces_to_sub_edges_nodes,
    subedge_nodes_of, edge_nodes_vertices,
};
use crate::morton_code::{MortonCode, code_on_level};
use crate::tables::VertexIndex;

verus! {

/// A visit of the walk: a leaf, or the quad of four leaves around an edge
/// that crosses the surface, wound by which side of the edge is solid.
#[derive(Debug, Clone, Copy, PartialEq, Eq, Structural)]
pub enum DcVisit {
    Node(MortonCode),
    Quad(MortonCode, MortonCode, MortonCode, MortonCode),
}

/// The child `digit` of `node`: the node that the octree holds for that
/// cell where `node` is a branch, `node` itself where it is a leaf; none at
/// the deepest level.
pub open spec fn child_node(octree: Octree, node: Node, digit: nat) -> Option<Node> {
    if node.address.level_spec() >= 21 {
        None
    } else {
        match node.node_type {
            NodeType::Branch => octree.node_at(node.address.child_spec(digit)),
            NodeType::Leaf => Some(node),
        }
    }
}

/// The child `digit` of `node` that the octree holds; none at the deepest
/// level.
pub open spec fn subnode(octree: Octree, node: Node, digit: nat) -> Option<Node> {
    if node.address.level_spec() >= 21 {
        None
    } else {
        octree.node_at(node.address.child_spec(digit))
    }
}

/// How far a branch may still be split: what the face and edge walks
/// spend.
pub open spec fn weight(node: Node) -> nat {
    if node.node_type == NodeType::Branch && node.address.level_spec() < 21 {
        (22 - node.address.level_spec()) as nat
    } else {
        0
    }
}

/// A child found by the walk is the node itself (for a leaf) or a node one
/// level down that weighs less (for a branch).
pub proof fn lemma_child_node(octree: Octree, node: Node, digit: nat)
    ensures
        child_node(octree, node, digit) matches Some(c) ==> {
            &&& node.address.level_spec() < 21
            &&& (node.node_type == NodeType::Leaf ==> c == node)
            &&& (node.node_type == NodeType::Branch ==> c.address == node.address.child_spec(digit)
                && c.address.level_spec() == node.address.level_spec() + 1 && weight(c) < weight(
                node,
            ))
        },
        subnode(octree, node, digit) matches Some(c) ==> c.address == node.address.child_spec(digit)
            && c.address.level_spec() == node.address.level_spec() + 1,
{
    if node.address.level_spec() < 21 {
        node.address.lemma_child_spec_level(digit);
    }
}

/// The index (0 to 3) of the first of the deepest of four nodes: the
/// smallest, whose corners the walk reads.
pub open spec fn deepest_of_four(l0: nat, l1: nat, l2: nat, l3: nat) -> nat {
    let (m1, v1) = if l1 > l0 {
        (1nat, l1)
    } else {
        (0nat, l0)
    };
    let (m2, v2) = if l2 > v1 {
        (2nat, l2)
    } else {
        (m1, v1)
    };
    if l3 > v2 {
        3
    } else {
        m2
    }
}

/// Node `m` of four.
pub open spec fn pick(m: nat, n0: Node, n1: Node, n2: Node, n3: Node) -> Node {
    if m == 0 {
        n0
    } else if m == 1 {
        n1
    } else if m == 2 {
        n2
    } else {
        n3
    }
}

/// The visit of a minimal edge along `axis` between four leaves: the edge
/// as the smallest of them sees it crosses the surface where its two
/// corners differ; the quad comes in order where the low corner is solid
/// and turned where it is air.
pub open spec fn leaf_edge_visits(axis: nat, n0: Node, n1: Node, n2: Node, n3: Node) -> Seq<DcVisit> {
    let m = deepest_of_four(
        n0.address.level_spec(),
        n1.address.level_spec(),
        n2.address.level_spec(),
        n3.address.level_spec(),
    );
    let (a, b) = edge_node_vertices(axis, m);
    let node = pick(m, n0, n1, n2, n3);
    let mat0 = node.vertices_mat_types[a as int];
    let mat1 = node.vertices_mat_types[b as int];
    if mat0 == mat1 {
        seq![]
    } else if mat0 == VoxelMaterialType::Air {
        seq![DcVisit::Quad(n2.address, n3.address, n0.address, n1.address)]
    } else {
        seq![DcVisit::Quad(n0.address, n1.address, n2.address, n3.address)]
    }
}

/// Whether four nodes all lie in one cell of level 1 (one chunk of a seam
/// octree).
pub open spec fn same_chunk(n0: Node, n1: Node, n2: Node, n3: Node) -> bool {
    let c = code_on_level(n0.address, 1);
    c == code_on_level(n1.address, 1) && c == code_on_level(n2.address, 1) && c == code_on_level(
        n3.address,
        1,
    )
}

/// The visits of the edge along `axis` between four nodes: at four leaves,
/// the leaf edge (none in a seam octree where all four lie in one chunk);
/// else the visits of its two halves, where the four children around each
/// are found.
pub open spec fn edge_visits(
    octree: Octree,
    is_seam: bool,
    axis: nat,
    n0: Node,
    n1: Node,
    n2: Node,
    n3: Node,
) -> Seq<DcVisit>
    decreases weight(n0) + weight(n1) + weight(n2) + weight(n3), 1nat,
{
    if n0.node_type == NodeType::Leaf && n1.node_type == NodeType::Leaf && n2.node_type
        == NodeType::Leaf && n3.node_type == NodeType::Leaf {
        if is_seam && same_chunk(n0, n1, n2, n3) {
            seq![]
        } else {
            leaf_edge_visits(axis, n0, n1, n2, n3)
        }
    } else {
        half_edge_visits(octree, is_seam, axis, n0, n1, n2, n3, 0) + half_edge_visits(
            octree,
            is_seam,
            axis,
            n0,
            n1,
            n2,
            n3,
            1,
        )
    }
}

/// The visits of half `i` of the edge along `axis` between four nodes (not
/// all leaves; four leaves bound a minimal edge, which has no halves).
pub open spec fn half_edge_visits(
    octree: Octree,
    is_seam: bool,
    axis: nat,
    n0: Node,
    n1: Node,
    n2: Node,
    n3: Node,
    i: nat,
) -> Seq<DcVisit>
    decreases weight(n0) + weight(n1) + weight(n2) + weight(n3), 0nat,
{
    let d = subedge_nodes(axis, i);
    match (
        child_node(octree, n0, d[0]),
        child_node(octree, n1, d[1]),
        child_node(octree, n2, d[2]),
        child_node(octree, n3, d[3]),
    ) {
        (Some(c0), Some(c1), Some(c2), Some(c3)) => {
            if n0.node_type == NodeType::Leaf && n1.node_type == NodeType::Leaf && n2.node_type
                == NodeType::Leaf && n3.node_type == NodeType::Leaf {
                seq![]
            } else {
                proof {
                    lemma_child_node(octree, n0, d[0]);
                    lemma_child_node(octree, n1, d[1]);
                    lemma_child_node(octree, n2, d[2]);
                    lemma_child_node(octree, n3, d[3]);
                }
                edge_visits(octree, is_seam, axis, c0, c1, c2, c3)
            }
        },
        _ => seq![],
    }
}

/// Node `side` (0 or 1) of two.
pub open spec fn pick2(side: nat, n0: Node, n1: Node) -> Node {
    if side == 0 {
        n0
    } else {
        n1
    }
}

/// The visits of the face across `axis` between two nodes (`n0` on the low
/// side): none between two leaves; else those of the four faces between
/// their children, then those of the four edges inside the face.
pub open spec fn face_visits(octree: Octree, is_seam: bool, axis: nat, n0: Node, n1: Node) -> Seq<
    DcVisit,
>
    decreases weight(n0) + weight(n1), 1nat, 0nat,
{
    if n0.node_type == NodeType::Leaf && n1.node_type == NodeType::Leaf {
        seq![]
    } else {
        sub_face_visits(octree, is_seam, axis, n0, n1, 4) + face_edge_visits(
            octree,
            is_seam,
            axis,
            n0,
            n1,
            4,
        )
    }
}

/// The visits of the first `k` of the four faces between the children of
/// two nodes across a face (not both leaves; two leaves meet in a minimal
/// face, which is not split).
pub open spec fn sub_face_visits(
    octree: Octree,
    is_seam: bool,
    axis: nat,
    n0: Node,
    n1: Node,
    k: nat,
) -> Seq<DcVisit>
    decreases weight(n0) + weight(n1), 0nat, k,
{
    if k == 0 {
        seq![]
    } else {
        let (d0, d1) = face_subnode_pairs(axis)[k - 1];
        sub_face_visits(octree, is_seam, axis, n0, n1, (k - 1) as nat) + match (
            child_node(octree, n0, d0),
            child_node(octree, n1, d1),
        ) {
            (Some(c0), Some(c1)) => if n0.node_type == NodeType::Leaf && n1.node_type
                == NodeType::Leaf {
                seq![]
            } else {
                proof {
                    lemma_child_node(octree, n0, d0);
                    lemma_child_node(octree, n1, d1);
                }
                face_visits(octree, is_seam, axis, c0, c1)
            },
            _ => seq![],
        }
    }
}

/// The visits of edge `t` (its axis `face_edge_axes(axis)[t / 2]`, then
/// `t % 2` picks one of two) inside the face across `axis` between two
/// nodes.
pub open spec fn face_edge_visit(octree: Octree, is_seam: bool, axis: nat, n0: Node, n1: Node, t: nat) -> Seq<
    DcVisit,
> {
    let e = t / 2;
    let entries = face_edge_nodes(axis, e, t % 2);
    match (
        child_node(octree, pick2(entries[0].1, n0, n1), entries[0].0),
        child_node(octree, pick2(entries[1].1, n0, n1), entries[1].0),
        child_node(octree, pick2(entries[2].1, n0, n1), entries[2].0),
        child_node(octree, pick2(entries[3].1, n0, n1), entries[3].0),
    ) {
        (Some(c0), Some(c1), Some(c2), Some(c3)) => edge_visits(
            octree,
            is_seam,
            face_edge_axes(axis)[e as int],
            c0,
            c1,
            c2,
            c3,
        ),
        _ => seq![],
    }
}

/// The visits of the first `j` of the four edges inside a face.
pub open spec fn face_edge_visits(
    octree: Octree,
    is_seam: bool,
    axis: nat,
    n0: Node,
    n1: Node,
    j: nat,
) -> Seq<DcVisit>
    decreases j,
{
    if j == 0 {
        seq![]
    } else {
        face_edge_visits(octree, is_seam, axis, n0, n1, (j - 1) as nat) + face_edge_visit(
            octree,
            is_seam,
            axis,
            n0,
            n1,
            (j - 1) as nat,
        )
    }
}

/// The visits of a node: the node itself where it is a leaf; else those of
/// its children, then of the twelve faces between them, then of the six
/// edges between them.
pub open spec fn node_visits(octree: Octree, is_seam: bool, node: Node) -> Seq<DcVisit>
    decreases 21 - node.address.level_spec(), 1nat, 0nat,
{
    if node.node_type == NodeType::Leaf {
        seq![DcVisit::Node(node.address)]
    } else {
        children_visits(octree, is_seam, node, 8) + inner_face_visits(octree, is_seam, node, 12)
            + inner_edge_visits(octree, is_seam, node, 6)
    }
}

/// The visits of the first `k` children of a node.
pub open spec fn children_visits(octree: Octree, is_seam: bool, node: Node, k: nat) -> Seq<
    DcVisit,
>
    decreases 21 - node.address.level_spec(), 0nat, k,
{
    if k == 0 {
        seq![]
    } else {
        children_visits(octree, is_seam, node, (k - 1) as nat) + match subnode(
            octree,
            node,
            (k - 1) as nat,
        ) {
            Some(c) => {
                proof {
                    lemma_child_node(octree, node, (k - 1) as nat);
                }
                node_visits(octree, is_seam, c)
            },
            None => seq![],
        }
    }
}

/// The visits of inner face `j` of a node: the face across axis `j / 4` at
/// position `j % 4`, where both children beside it are in the octree.
pub open spec fn inner_face_visit(octree: Octree, is_seam: bool, node: Node, j: nat) -> Seq<DcVisit> {
    let axis = j / 4;
    let (l, r) = subnode_face_pairs(axis)[(j % 4) as int];
    match (subnode(octree, node, l), subnode(octree, node, r)) {
        (Some(a), Some(b)) => face_visits(octree, is_seam, axis, a, b),
        _ => seq![],
    }
}

/// The visits of the first `j` of the twelve inner faces of a node.
pub open spec fn inner_face_visits(octree: Octree, is_seam: bool, node: Node, j: nat) -> Seq<
    DcVisit,
>
    decreases j,
{
    if j == 0 {
        seq![]
    } else {
        inner_face_visits(octree, is_seam, node, (j - 1) as nat) + inner_face_visit(
            octree,
            is_seam,
            node,
            (j - 1) as nat,
        )
    }
}

/// The visits of inner edge `j` of a node: the edge along axis `j / 2` in
/// group `j % 2`, where all four children around it are in the octree.
pub open spec fn inner_edge_visit(octree: Octree, is_seam: bool, node: Node, j: nat) -> Seq<DcVisit> {
    let axis = j / 2;
    let d = subnode_edge_groups(axis)[(j % 2) as int];
    match (
        subnode(octree, node, d[0]),
        subnode(octree, node, d[1]),
        subnode(octree, node, d[2]),
        subnode(octree, node, d[3]),
    ) {
        (Some(c0), Some(c1), Some(c2), Some(c3)) => edge_visits(
            octree,
            is_seam,
            axis,
            c0,
            c1,
            c2,
            c3,
        ),
        _ => seq![],
    }
}

/// The visits of the first `j` of the six inner edges of a node.
pub open spec fn inner_edge_visits(octree: Octree, is_seam: bool, node: Node, j: nat) -> Seq<
    DcVisit,
>
    decreases j,
{
    if j == 0 {
        seq![]
    } else {
        inner_edge_visits(octree, is_seam, node, (j - 1) as nat) + inner_edge_visit(
            octree,
            is_seam,
            node,
            (j - 1) as nat,
        )
    }
}

/// The visits of the whole octree: those of its root, where it has one.
pub open spec fn octree_visits(octree: Octree, is_seam: bool) -> Seq<DcVisit> {
    match octree.node_at(MortonCode::root_spec()) {
        Some(root) => node_visits(octree, is_seam, root),
        None => seq![],
    }
}

/// The child `subnode_index` of `node` as the walk takes it.
fn get_child_node(octree: &OctreeProxy, node: &Node, subnode_index: VertexIndex) -> (r: Option<Node>)
    ensures
        r == child_node(*octree.octree, *node, subnode_index.repr()),
{
    node.address.check_wf();
    if let Some(node_address) = node.address.child(subnode_index) {
        match node.node_type {
            NodeType::Branch => octree.get_node(&node_address),
            NodeType::Leaf => Some(*node),
        }
    } else {
        None
    }
}

/// Visits the minimal edge along `axis` between four leaves.
fn visit_leaf_edge(axis: usize, n0: Node, n1: Node, n2: Node, n3: Node, visits: &mut Vec<DcVisit>)
    requires
        axis < 3,
    ensures
        final(visits)@ == old(visits)@ + leaf_edge_visits(axis as nat, n0, n1, n2, n3),
{
    let mut min_node_index: usize = 0;
    let mut max_level = n0.address.level();
    if n1.address.level() > max_level {
        min_node_index = 1;
        max_level = n1.address.level();
    }
    if n2.address.level() > max_level {
        min_node_index = 2;
        max_level = n2.address.level();
    }
    if n3.address.level() > max_level {
        min_node_index = 3;
    }
    let (va, vb) = edge_nodes_vertices(axis, min_node_index);
    let node = if min_node_index == 0 {
        n0
    } else if min_node_index == 1 {
        n1
    } else if min_node_index == 2 {
        n2
    } else {
        n3
    };
    let mat0 = node.vertices_mat_types[va.to_index()];
    let mat1 = node.vertices_mat_types[vb.to_index()];
    match (mat0, mat1) {
        (VoxelMaterialType::Air, VoxelMaterialType::Block) => {
            visits.push(DcVisit::Quad(n2.address, n3.address, n0.address, n1.address));
        },
        (VoxelMaterialType::Block, VoxelMaterialType::Air) => {
            visits.push(DcVisit::Quad(n0.address, n1.address, n2.address, n3.address));
        },
        _ => {},
    }
}

/// Walks the edge along `axis` between four nodes.
fn edge_proc(
    octree: &OctreeProxy,
    axis: usize,
    n0: Node,
    n1: Node,
    n2: Node,
    n3: Node,
    visits: &mut Vec<DcVisit>,
)
    requires
        axis < 3,
        n0.address.level_spec() >= 1,
        n1.address.level_spec() >= 1,
        n2.address.level_spec() >= 1,
        n3.address.level_spec() >= 1,
    ensures
        final(visits)@ == old(visits)@ + edge_visits(
            *octree.octree,
            octree.is_seam,
            axis as nat,
            n0,
            n1,
            n2,
            n3,
        ),
    decreases weight(n0) + weight(n1) + weight(n2) + weight(n3), 1nat,
{
    if n0.node_type == NodeType::Leaf && n1.node_type == NodeType::Leaf && n2.node_type
        == NodeType::Leaf && n3.node_type == NodeType::Leaf {
        if octree.is_seam {
            let p0 = n0.address.morton_code_on_level(1).unwrap();
            let p1 = n1.address.morton_code_on_level(1).unwrap();
            let p2 = n2.address.morton_code_on_level(1).unwrap();
            let p3 = n3.address.morton_code_on_level(1).unwrap();
            proof {
                p0.lemma_view_eq(p1);
                p0.lemma_view_eq(p2);
                p0.lemma_view_eq(p3);
            }
            if p0 == p1 && p0 == p2 && p0 == p3 {
                assert(old(visits)@ + edge_visits(*octree.octree, octree.is_seam, axis as nat, n0, n1, n2, n3) =~= old(visits)@);
                return;
            }
        }
        visit_leaf_edge(axis, n0, n1, n2, n3, visits);
        return;
    }
    let ghost before = visits@;
    half_edge_proc(octree, axis, n0, n1, n2, n3, 0, visits);
    half_edge_proc(octree, axis, n0, n1, n2, n3, 1, visits);
    assert(visits@ =~= before + edge_visits(*octree.octree, octree.is_seam, axis as nat, n0, n1, n2, n3));
}

/// Walks half `i` of the edge along `axis` between four nodes, not all
/// leaves.
fn half_edge_proc(
    octree: &OctreeProxy,
    axis: usize,
    n0: Node,
    n1: Node,
    n2: Node,
    n3: Node,
    i: usize,
    visits: &mut Vec<DcVisit>,
)
    requires
        axis < 3,
        i < 2,
        n0.address.level_spec() >= 1,
        n1.address.level_spec() >= 1,
        n2.address.level_spec() >= 1,
        n3.address.level_spec() >= 1,
        !(n0.node_type == NodeType::Leaf && n1.node_type == NodeType::Leaf && n2.node_type
            == NodeType::Leaf && n3.node_type == NodeType::Leaf),
    ensures
        final(visits)@ == old(visits)@ + half_edge_visits(
            *octree.octree,
            octree.is_seam,
            axis as nat,
            n0,
            n1,
            n2,
            n3,
            i as nat,
        ),
    decreases weight(n0) + weight(n1) + weight(n2) + weight(n3), 0nat,
{
    let d = subedge_nodes_of(axis, i);
    let ghost ds = subedge_nodes(axis as nat, i as nat);
    assert(d[0].repr() == ds[0] && d[1].repr() == ds[1] && d[2].repr() == ds[2] && d[3].repr()
        == ds[3]);
    let c0 = get_child_node(octree, &n0, d[0]);
    let c1 = get_child_node(octree, &n1, d[1]);
    let c2 = get_child_node(octree, &n2, d[2]);
    let c3 = get_child_node(octree, &n3, d[3]);
    proof {
        lemma_child_node(*octree.octree, n0, ds[0]);
        lemma_child_node(*octree.octree, n1, ds[1]);
        lemma_child_node(*octree.octree, n2, ds[2]);
        lemma_child_node(*octree.octree, n3, ds[3]);
    }
    match (c0, c1, c2, c3) {
        (Some(c0), Some(c1), Some(c2), Some(c3)) => {
            edge_proc(octree, axis, c0, c1, c2, c3, visits);
        },
        _ => {
            assert(visits@ =~= old(visits)@ + half_edge_visits(
                *octree.octree,
                octree.is_seam,
                axis as nat,
                n0,
                n1,
                n2,
                n3,
                i as nat,
            ));
        },
    }
}

/// Walks the face across `axis` between two nodes (`n0` on the low side).
fn face_proc(octree: &OctreeProxy, axis: usize, n0: Node, n1: Node, visits: &mut Vec<DcVisit>)
    requires
        axis < 3,
        n0.address.level_spec() >= 1,
        n1.address.level_spec() >= 1,
    ensures
        final(visits)@ == old(visits)@ + face_visits(*octree.octree, octree.is_seam, axis as nat, n0, n1),
    decreases weight(n0) + weight(n1), 1nat, 0nat,
{
    let ghost tree = *octree.octree;
    let ghost seam = octree.is_seam;
    let ghost ax = axis as nat;
    if n0.node_type == NodeType::Leaf && n1.node_type == NodeType::Leaf {
        assert(old(visits)@ + face_visits(tree, seam, ax, n0, n1) =~= old(visits)@);
        return;
    }
    let ghost start = visits@;
    let mut k: usize = 0;
    while k < 4
        invariant
            tree == *octree.octree,
            seam == octree.is_seam,
            ax == axis,
            axis < 3,
            n0.address.level_spec() >= 1,
            n1.address.level_spec() >= 1,
            !(n0.node_type == NodeType::Leaf && n1.node_type == NodeType::Leaf),
            k <= 4,
            visits@ == start + sub_face_visits(tree, seam, ax, n0, n1, k as nat),
        decreases 4 - k,
    {
        let (d0, d1) = faces_subnodes_neighbor_pair(axis, k);
        let c0 = get_child_node(octree, &n0, d0);
        let c1 = get_child_node(octree, &n1, d1);
        proof {
            lemma_child_node(tree, n0, d0.repr());
            lemma_child_node(tree, n1, d1.repr());
        }
        let ghost prev = visits@;
        if let (Some(a), Some(b)) = (c0, c1) {
            face_proc(octree, axis, a, b, visits);
        }
        assert(visits@ =~= start + sub_face_visits(tree, seam, ax, n0, n1, (k + 1) as nat));
        k = k + 1;
    }
    let ghost middle = visits@;
    let mut t: usize = 0;
    while t < 4
        invariant
            tree == *octree.octree,
            seam == octree.is_seam,
            ax == axis,
            axis < 3,
            n0.address.level_spec() >= 1,
            n1.address.level_spec() >= 1,
            t <= 4,
            visits@ == middle + face_edge_visits(tree, seam, ax, n0, n1, t as nat),
        decreases 4 - t,
    {
        face_edge_proc(octree, axis, n0, n1, t, visits);
        assert(visits@ =~= middle + face_edge_visits(tree, seam, ax, n0, n1, (t + 1) as nat));
        t = t + 1;
    }
    assert(visits@ =~= start + face_visits(tree, seam, ax, n0, n1));
}

/// Walks edge `t` inside the face across `axis` between two nodes.
fn face_edge_proc(octree: &OctreeProxy, axis: usize, n0: Node, n1: Node, t: usize, visits: &mut Vec<DcVisit>)
    requires
        axis < 3,
        t < 4,
        n0.address.level_spec() >= 1,
        n1.address.level_spec() >= 1,
    ensures
        final(visits)@ == old(visits)@ + face_edge_visit(
            *octree.octree,
            octree.is_seam,
            axis as nat,
            n0,
            n1,
            t as nat,
        ),
{
    let ghost tree = *octree.octree;
    let e = t / 2;
    let v = t % 2;
    let entries = faces_to_sub_edges_nodes(axis, e, v);
    let ghost es = face_edge_nodes(axis as nat, e as nat, v as nat);
    let m0 = if entries[0].1.bits() == 0 {
        n0
    } else {
        n1
    };
    let m1 = if entries[1].1.bits() == 0 {
        n0
    } else {
        n1
    };
    let m2 = if entries[2].1.bits() == 0 {
        n0
    } else {
        n1
    };
    let m3 = if entries[3].1.bits() == 0 {
        n0
    } else {
        n1
    };
    let c0 = get_child_node(octree, &m0, entries[0].0);
    let c1 = get_child_node(octree, &m1, entries[1].0);
    let c2 = get_child_node(octree, &m2, entries[2].0);
    let c3 = get_child_node(octree, &m3, entries[3].0);
    proof {
        lemma_child_node(tree, m0, es[0].0);
        lemma_child_node(tree, m1, es[1].0);
        lemma_child_node(tree, m2, es[2].0);
        lemma_child_node(tree, m3, es[3].0);
    }
    let edge_axis = face_to_sub_edges_axis_type(axis, e);
    if let (Some(c0), Some(c1), Some(c2), Some(c3)) = (c0, c1, c2, c3) {
        edge_proc(octree, edge_axis, c0, c1, c2, c3, visits);
    } else {
        assert(visits@ =~= old(visits)@ + face_edge_visit(tree, octree.is_seam, axis as nat, n0, n1, t as nat));
    }
}

/// Walks a node: visits it where it is a leaf; else walks its children,
/// the twelve faces between them and the six edges between them.
fn node_proc(octree: &OctreeProxy, parent_node: Node, visits: &mut Vec<DcVisit>)
    requires
        parent_node.address.level_spec() <= 21,
    ensures
        final(visits)@ == old(visits)@ + node_visits(*octree.octree, octree.is_seam, parent_node),
    decreases 21 - parent_node.address.level_spec(),
{
    let ghost tree = *octree.octree;
    let ghost seam = octree.is_seam;
    if parent_node.node_type == NodeType::Leaf {
        visits.push(DcVisit::Node(parent_node.address));
        assert(visits@ =~= old(visits)@ + node_visits(tree, seam, parent_node));
        return;
    }
    let ghost start = visits@;
    let mut subnodes: Vec<Option<Node>> = Vec::new();
    let mut i: usize = 0;
    while i < 8
        invariant
            tree == *octree.octree,
            seam == octree.is_seam,
            parent_node.address.level_spec() <= 21,
            parent_node.node_type == NodeType::Branch,
            i <= 8,
            subnodes.len() == i,
            forall|k: int| 0 <= k < i ==> #[trigger] subnodes[k] == subnode(tree, parent_node, k as nat),
            visits@ == start + children_visits(tree, seam, parent_node, i as nat),
        decreases 8 - i,
    {
        let idx = VertexIndex::from_repr(i).unwrap();
        let mut found: Option<Node> = None;
        proof {
            lemma_child_node(tree, parent_node, i as nat);
        }
        if let Some(node_address) = parent_node.address.child(idx) {
            if let Some(sub) = octree.get_node(&node_address) {
                node_proc(octree, sub, visits);
                found = Some(sub);
            }
        }
        subnodes.push(found);
        assert(visits@ =~= start + children_visits(tree, seam, parent_node, (i + 1) as nat));
        i = i + 1;
    }
    let ghost after_children = visits@;
    let mut j: usize = 0;
    while j < 12
        invariant
            tree == *octree.octree,
            seam == octree.is_seam,
            parent_node.address.level_spec() <= 21,
            j <= 12,
            subnodes.len() == 8,
            forall|k: int| 0 <= k < 8 ==> #[trigger] subnodes[k] == subnode(tree, parent_node, k as nat),
            visits@ == after_children + inner_face_visits(tree, seam, parent_node, j as nat),
        decreases 12 - j,
    {
        let (l, r) = subnode_faces_neighbor_pair(j / 4, j % 4);
        let a = subnodes[l.to_index()];
        let b = subnodes[r.to_index()];
        proof {
            lemma_child_node(tree, parent_node, l.repr());
            lemma_child_node(tree, parent_node, r.repr());
            l.lemma_repr_bounds();
            r.lemma_repr_bounds();
        }
        if let (Some(a), Some(b)) = (a, b) {
            face_proc(octree, j / 4, a, b, visits);
        }
        assert(visits@ =~= after_children + inner_face_visits(tree, seam, parent_node, (j + 1) as nat));
        j = j + 1;
    }
    let ghost after_faces = visits@;
    let mut j: usize = 0;
    while j < 6
        invariant
            tree == *octree.octree,
            seam == octree.is_seam,
            parent_node.address.level_spec() <= 21,
            j <= 6,
            subnodes.len() == 8,
            forall|k: int| 0 <= k < 8 ==> #[trigger] subnodes[k] == subnode(tree, parent_node, k as nat),
            visits@ == after_faces + inner_edge_visits(tree, seam, parent_node, j as nat),
        decreases 6 - j,
    {
        inner_edge_proc(octree, &parent_node, &subnodes, j, visits);
        assert(visits@ =~= after_faces + inner_edge_visits(tree, seam, parent_node, (j + 1) as nat));
        j = j + 1;
    }
    assert(visits@ =~= start + node_visits(tree, seam, parent_node));
}

/// The visits of dual contouring over the octree, from its root.
pub fn dual_contouring(octree: &OctreeProxy) -> (r: Vec<DcVisit>)
    ensures
        r@ == octree_visits(*octree.octree, octree.is_seam),
{
    let root_address = MortonCode::root();
    let mut visits: Vec<DcVisit> = Vec::new();
    if let Some(root_node) = octree.get_node(&root_address) {
        root_node.address.check_wf();
        node_proc(octree, root_node, &mut visits);
    }
    assert(visits@ =~= octree_visits(*octree.octree, octree.is_seam));
    visits
}

/// Walks inner edge `j` of a node whose children the walk found are
/// `subnodes`.
fn inner_edge_proc(
    octree: &OctreeProxy,
    parent_node: &Node,
    subnodes: &Vec<Option<Node>>,
    j: usize,
    visits: &mut Vec<DcVisit>,
)
    requires
        j < 6,
        subnodes.len() == 8,
        forall|k: int| 0 <= k < 8 ==> #[trigger] subnodes[k] == subnode(*octree.octree, *parent_node, k as nat),
    ensures
        final(visits)@ == old(visits)@ + inner_edge_visit(*octree.octree, octree.is_seam, *parent_node, j as nat),
{
    let ghost tree = *octree.octree;
    let d = subnode_edges_neighbor_group(j / 2, j % 2);
    let ghost ds = subnode_edge_groups((j / 2) as nat)[(j % 2) as int];
    assert(d[0].repr() == ds[0] && d[1].repr() == ds[1] && d[2].repr() == ds[2] && d[3].repr()
        == ds[3]);
    proof {
        d[0].lemma_repr_bounds();
        d[1].lemma_repr_bounds();
        d[2].lemma_repr_bounds();
        d[3].lemma_repr_bounds();
        lemma_child_node(tree, *parent_node, ds[0]);
        lemma_child_node(tree, *parent_node, ds[1]);
        lemma_child_node(tree, *parent_node, ds[2]);
        lemma_child_node(tree, *parent_node, ds[3]);
    }
    let c0 = subnodes[d[0].to_index()];
    let c1 = subnodes[d[1].to_index()];
    let c2 = subnodes[d[2].to_index()];
    let c3 = subnodes[d[3].to_index()];
    if let (Some(c0), Some(c1), Some(c2), Some(c3)) = (c0, c1, c2, c3) {
        edge_proc(octree, j / 2, c0, c1, c2, c3, visits);
    } else {
        assert(visits@ =~= old(visits)@ + inner_edge_visit(tree, octree.is_seam, *parent_node, j as nat));
    }
}

/// Whether the octree holds `node` as it is.
pub open spec fn held(octree: Octree, node: Node) -> bool {
    octree.node_at(node.address) == Some(node)
}

/// Whether the octree holds a leaf at `c`.
pub open spec fn leaf_at(octree: Octree, c: MortonCode) -> bool {
    octree.node_at(c) matches Some(n) && n.node_type == NodeType::Leaf
}

/// Whether all four cells lie in one cell of level 1.
pub open spec fn one_chunk(a: MortonCode, b: MortonCode, c: MortonCode, d: MortonCode) -> bool {
    let k = code_on_level(a, 1);
    k == code_on_level(b, 1) && k == code_on_level(c, 1) && k == code_on_level(d, 1)
}

/// Every visit is of leaves that the octree holds, and in a seam octree no
/// quad joins four leaves of one chunk.
pub open spec fn visits_ok(octree: Octree, is_seam: bool, s: Seq<DcVisit>) -> bool {
    forall|i: int|
        0 <= i < s.len() ==> match #[trigger] s[i] {
            DcVisit::Node(c) => leaf_at(octree, c),
            DcVisit::Quad(a, b, c, d) => leaf_at(octree, a) && leaf_at(octree, b) && leaf_at(
                octree,
                c,
            ) && leaf_at(octree, d) && (is_seam ==> !one_chunk(a, b, c, d)),
        }
}

proof fn lemma_visits_concat(octree: Octree, is_seam: bool, a: Seq<DcVisit>, b: Seq<DcVisit>)
    requires
        visits_ok(octree, is_seam, a),
        visits_ok(octree, is_seam, b),
    ensures
        visits_ok(octree, is_seam, a + b),
{
    assert forall|i: int| 0 <= i < (a + b).len() implies match #[trigger] (a + b)[i] {
        DcVisit::Node(c) => leaf_at(octree, c),
        DcVisit::Quad(p, q, r, t) => leaf_at(octree, p) && leaf_at(octree, q) && leaf_at(octree, r)
            && leaf_at(octree, t) && (is_seam ==> !one_chunk(p, q, r, t)),
    } by {
        if i < a.len() {
            assert((a + b)[i] == a[i]);
        } else {
            assert((a + b)[i] == b[i - a.len()]);
        }
    }
}

/// A child that the walk takes of a held node is held.
proof fn lemma_child_held(octree: Octree, node: Node, digit: nat)
    requires
        held(octree, node),
    ensures
        child_node(octree, node, digit) matches Some(c) ==> held(octree, c),
        subnode(octree, node, digit) matches Some(c) ==> held(octree, c),
{
}

proof fn lemma_edge_visits_ok(
    octree: Octree,
    is_seam: bool,
    axis: nat,
    n0: Node,
    n1: Node,
    n2: Node,
    n3: Node,
)
    requires
        held(octree, n0),
        held(octree, n1),
        held(octree, n2),
        held(octree, n3),
    ensures
        visits_ok(octree, is_seam, edge_visits(octree, is_seam, axis, n0, n1, n2, n3)),
    decreases weight(n0) + weight(n1) + weight(n2) + weight(n3), 1nat,
{
    if n0.node_type == NodeType::Leaf && n1.node_type == NodeType::Leaf && n2.node_type
        == NodeType::Leaf && n3.node_type == NodeType::Leaf {
        let s = edge_visits(octree, is_seam, axis, n0, n1, n2, n3);
        assert forall|i: int| 0 <= i < s.len() implies match #[trigger] s[i] {
            DcVisit::Node(c) => leaf_at(octree, c),
            DcVisit::Quad(a, b, c, d) => leaf_at(octree, a) && leaf_at(octree, b) && leaf_at(
                octree,
                c,
            ) && leaf_at(octree, d) && (is_seam ==> !one_chunk(a, b, c, d)),
        } by {
            assert(i == 0);
        }
    } else {
        lemma_half_edge_visits_ok(octree, is_seam, axis, n0, n1, n2, n3, 0);
        lemma_half_edge_visits_ok(octree, is_seam, axis, n0, n1, n2, n3, 1);
        lemma_visits_concat(
            octree,
            is_seam,
            half_edge_visits(octree, is_seam, axis, n0, n1, n2, n3, 0),
            half_edge_visits(octree, is_seam, axis, n0, n1, n2, n3, 1),
        );
    }
}

proof fn lemma_half_edge_visits_ok(
    octree: Octree,
    is_seam: bool,
    axis: nat,
    n0: Node,
    n1: Node,
    n2: Node,
    n3: Node,
    i: nat,
)
    requires
        held(octree, n0),
        held(octree, n1),
        held(octree, n2),
        held(octree, n3),
    ensures
        visits_ok(octree, is_seam, half_edge_visits(octree, is_seam, axis, n0, n1, n2, n3, i)),
    decreases weight(n0) + weight(n1) + weight(n2) + weight(n3), 0nat,
{
    let d = subedge_nodes(axis, i);
    lemma_child_node(octree, n0, d[0]);
    lemma_child_node(octree, n1, d[1]);
    lemma_child_node(octree, n2, d[2]);
    lemma_child_node(octree, n3, d[3]);
    lemma_child_held(octree, n0, d[0]);
    lemma_child_held(octree, n1, d[1]);
    lemma_child_held(octree, n2, d[2]);
    lemma_child_held(octree, n3, d[3]);
    match (
        child_node(octree, n0, d[0]),
        child_node(octree, n1, d[1]),
        child_node(octree, n2, d[2]),
        child_node(octree, n3, d[3]),
    ) {
        (Some(c0), Some(c1), Some(c2), Some(c3)) => {
            if !(n0.node_type == NodeType::Leaf && n1.node_type == NodeType::Leaf && n2.node_type
                == NodeType::Leaf && n3.node_type == NodeType::Leaf) {
                lemma_edge_visits_ok(octree, is_seam, axis, c0, c1, c2, c3);
            }
        },
        _ => {},
    }
}

proof fn lemma_face_visits_ok(octree: Octree, is_seam: bool, axis: nat, n0: Node, n1: Node)
    requires
        held(octree, n0),
        held(octree, n1),
    ensures
        visits_ok(octree, is_seam, face_visits(octree, is_seam, axis, n0, n1)),
    decreases weight(n0) + weight(n1), 1nat, 0nat,
{
    if !(n0.node_type == NodeType::Leaf && n1.node_type == NodeType::Leaf) {
        lemma_sub_face_visits_ok(octree, is_seam, axis, n0, n1, 4);
        lemma_face_edge_visits_ok(octree, is_seam, axis, n0, n1, 4);
        lemma_visits_concat(
            octree,
            is_seam,
            sub_face_visits(octree, is_seam, axis, n0, n1, 4),
            face_edge_visits(octree, is_seam, axis, n0, n1, 4),
        );
    }
}

proof fn lemma_sub_face_visits_ok(
    octree: Octree,
    is_seam: bool,
    axis: nat,
    n0: Node,
    n1: Node,
    k: nat,
)
    requires
        held(octree, n0),
        held(octree, n1),
    ensures
        visits_ok(octree, is_seam, sub_face_visits(octree, is_seam, axis, n0, n1, k)),
    decreases weight(n0) + weight(n1), 0nat, k,
{
    if k > 0 {
        let (d0, d1) = face_subnode_pairs(axis)[k - 1];
        lemma_sub_face_visits_ok(octree, is_seam, axis, n0, n1, (k - 1) as nat);
        lemma_child_node(octree, n0, d0);
        lemma_child_node(octree, n1, d1);
        lemma_child_held(octree, n0, d0);
        lemma_child_held(octree, n1, d1);
        let last = match (child_node(octree, n0, d0), child_node(octree, n1, d1)) {
            (Some(c0), Some(c1)) => if n0.node_type == NodeType::Leaf && n1.node_type
                == NodeType::Leaf {
                seq![]
            } else {
                face_visits(octree, is_seam, axis, c0, c1)
            },
            _ => seq![],
        };
        match (child_node(octree, n0, d0), child_node(octree, n1, d1)) {
            (Some(c0), Some(c1)) => {
                if !(n0.node_type == NodeType::Leaf && n1.node_type == NodeType::Leaf) {
                    lemma_face_visits_ok(octree, is_seam, axis, c0, c1);
                }
            },
            _ => {},
        }
        assert(visits_ok(octree, is_seam, last));
        lemma_visits_concat(
            octree,
            is_seam,
            sub_face_visits(octree, is_seam, axis, n0, n1, (k - 1) as nat),
            last,
        );
    }
}

proof fn lemma_face_edge_visits_ok(
    octree: Octree,
    is_seam: bool,
    axis: nat,
    n0: Node,
    n1: Node,
    j: nat,
)
    requires
        held(octree, n0),
        held(octree, n1),
    ensures
        visits_ok(octree, is_seam, face_edge_visits(octree, is_seam, axis, n0, n1, j)),
    decreases j,
{
    if j > 0 {
        let t = (j - 1) as nat;
        lemma_face_edge_visits_ok(octree, is_seam, axis, n0, n1, t);
        let entries = face_edge_nodes(axis, t / 2, t % 2);
        let m0 = pick2(entries[0].1, n0, n1);
        let m1 = pick2(entries[1].1, n0, n1);
        let m2 = pick2(entries[2].1, n0, n1);
        let m3 = pick2(entries[3].1, n0, n1);
        lemma_child_held(octree, m0, entries[0].0);
        lemma_child_held(octree, m1, entries[1].0);
        lemma_child_held(octree, m2, entries[2].0);
        lemma_child_held(octree, m3, entries[3].0);
        match (
            child_node(octree, m0, entries[0].0),
            child_node(octree, m1, entries[1].0),
            child_node(octree, m2, entries[2].0),
            child_node(octree, m3, entries[3].0),
        ) {
            (Some(c0), Some(c1), Some(c2), Some(c3)) => {
                lemma_edge_visits_ok(octree, is_seam, face_edge_axes(axis)[(t / 2) as int], c0, c1, c2, c3);
            },
            _ => {},
        }
        lemma_visits_concat(
            octree,
            is_seam,
            face_edge_visits(octree, is_seam, axis, n0, n1, t),
            face_edge_visit(octree, is_seam, axis, n0, n1, t),
        );
    }
}

proof fn lemma_node_visits_ok(octree: Octree, is_seam: bool, node: Node)
    requires
        held(octree, node),
    ensures
        visits_ok(octree, is_seam, node_visits(octree, is_seam, node)),
    decreases 21 - node.address.level_spec(), 1nat, 0nat,
{
    if node.node_type == NodeType::Leaf {
        let s = node_visits(octree, is_seam, node);
        assert forall|i: int| 0 <= i < s.len() implies match #[trigger] s[i] {
            DcVisit::Node(c) => leaf_at(octree, c),
            DcVisit::Quad(a, b, c, d) => leaf_at(octree, a) && leaf_at(octree, b) && leaf_at(
                octree,
                c,
            ) && leaf_at(octree, d) && (is_seam ==> !one_chunk(a, b, c, d)),
        } by {
            assert(i == 0);
        }
    } else {
        lemma_children_visits_ok(octree, is_seam, node, 8);
        lemma_inner_face_visits_ok(octree, is_seam, node, 12);
        lemma_inner_edge_visits_ok(octree, is_seam, node, 6);
        lemma_visits_concat(
            octree,
            is_seam,
            children_visits(octree, is_seam, node, 8),
            inner_face_visits(octree, is_seam, node, 12),
        );
        lemma_visits_concat(
            octree,
            is_seam,
            children_visits(octree, is_seam, node, 8) + inner_face_visits(octree, is_seam, node, 12),
            inner_edge_visits(octree, is_seam, node, 6),
        );
    }
}

proof fn lemma_children_visits_ok(octree: Octree, is_seam: bool, node: Node, k: nat)
    requires
        held(octree, node),
    ensures
        visits_ok(octree, is_seam, children_visits(octree, is_seam, node, k)),
    decreases 21 - node.address.level_spec(), 0nat, k,
{
    if k > 0 {
        lemma_children_visits_ok(octree, is_seam, node, (k - 1) as nat);
        lemma_child_node(octree, node, (k - 1) as nat);
        lemma_child_held(octree, node, (k - 1) as nat);
        let last = match subnode(octree, node, (k - 1) as nat) {
            Some(c) => node_visits(octree, is_seam, c),
            None => seq![],
        };
        if let Some(c) = subnode(octree, node, (k - 1) as nat) {
            lemma_node_visits_ok(octree, is_seam, c);
        }
        lemma_visits_concat(octree, is_seam, children_visits(octree, is_seam, node, (k - 1) as nat), last);
    }
}

proof fn lemma_inner_face_visits_ok(octree: Octree, is_seam: bool, node: Node, j: nat)
    requires
        held(octree, node),
    ensures
        visits_ok(octree, is_seam, inner_face_visits(octree, is_seam, node, j)),
    decreases j,
{
    if j > 0 {
        let t = (j - 1) as nat;
        lemma_inner_face_visits_ok(octree, is_seam, node, t);
        let (l, r) = subnode_face_pairs(t / 4)[(t % 4) as int];
        lemma_child_held(octree, node, l);
        lemma_child_held(octree, node, r);
        match (subnode(octree, node, l), subnode(octree, node, r)) {
            (Some(a), Some(b)) => {
                lemma_face_visits_ok(octree, is_seam, t / 4, a, b);
            },
            _ => {},
        }
        lemma_visits_concat(
            octree,
            is_seam,
            inner_face_visits(octree, is_seam, node, t),
            inner_face_visit(octree, is_seam, node, t),
        );
    }
}

proof fn lemma_inner_edge_visits_ok(octree: Octree, is_seam: bool, node: Node, j: nat)
    requires
        held(octree, node),
    ensures
        visits_ok(octree, is_seam, inner_edge_visits(octree, is_seam, node, j)),
    decreases j,
{
    if j > 0 {
        let t = (j - 1) as nat;
        lemma_inner_edge_visits_ok(octree, is_seam, node, t);
        let d = subnode_edge_groups(t / 2)[(t % 2) as int];
        lemma_child_held(octree, node, d[0]);
        lemma_child_held(octree, node, d[1]);
        lemma_child_held(octree, node, d[2]);
        lemma_child_held(octree, node, d[3]);
        match (
            subnode(octree, node, d[0]),
            subnode(octree, node, d[1]),
            subnode(octree, node, d[2]),
            subnode(octree, node, d[3]),
        ) {
            (Some(c0), Some(c1), Some(c2), Some(c3)) => {
                lemma_edge_visits_ok(octree, is_seam, t / 2, c0, c1, c2, c3);
            },
            _ => {},
        }
        lemma_visits_concat(
            octree,
            is_seam,
            inner_edge_visits(octree, is_seam, node, t),
            inner_edge_visit(octree, is_seam, node, t),
        );
    }
}

/// Dual contouring visits only leaves that the octree holds, joins only
/// such leaves in quads, and in the octree of a seam never joins four
/// leaves of one chunk.
pub proof fn lemma_octree_visits_ok(octree: Octree, is_seam: bool)
    ensures
        visits_ok(octree, is_seam, octree_visits(octree, is_seam)),
{
    if let Some(root) = octree.node_at(MortonCode::root_spec()) {
        lemma_node_visits_ok(octree, is_seam, root);
    }
}

} // verus!

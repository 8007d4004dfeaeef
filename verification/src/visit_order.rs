//! The order of the visits of dual contouring: the walk visits each leaf
//! that it reaches from the root once, and visits each leaf before any quad
//! that joins it.
use vstd::prelude::*;
use crate::address::{pow8, lemma_pow8_positive};
use crate::dc_octree::{Node, NodeType, Octree};
use crate::dc_tables::{
    subnode_face_pairs, face_subnode_pairs, subnode_edge_groups, face_edge_axes, face_edge_nodes,
    subedge_nodes,
};
use crate::dual_contouring::{
    DcVisit, child_node, subnode, weight, lemma_child_node, leaf_edge_visits, edge_visits,
    half_edge_visits, pick2, face_visits, sub_face_visits, face_edge_visit, face_edge_visits,
    node_visits, children_visits, inner_face_visit, inner_face_visits, inner_edge_visit,
    inner_edge_visits, octree_visits, pick, same_chunk,
};
use crate::dc_octree::VoxelMaterialType;
use crate::dc_tables::edge_node_vertices;
use crate::morton_code::{MortonCode, code_on_level};

verus! {

/// The leaves that the walk reaches from `node` through the children that
/// the octree holds: the node itself where it is a leaf.
pub open spec fn reached(octree: Octree, node: Node) -> Set<MortonCode>
    decreases 21 - node.address.level_spec(), 1nat, 0nat,
{
    if node.node_type == NodeType::Leaf {
        set![node.address]
    } else {
        reached_children(octree, node, 8)
    }
}

/// The leaves reached through the first `k` children of `node`.
pub open spec fn reached_children(octree: Octree, node: Node, k: nat) -> Set<MortonCode>
    decreases 21 - node.address.level_spec(), 0nat, k,
{
    if k == 0 {
        Set::empty()
    } else {
        reached_children(octree, node, (k - 1) as nat).union(
            match subnode(octree, node, (k - 1) as nat) {
                Some(c) => {
                    proof {
                        lemma_child_node(octree, node, (k - 1) as nat);
                    }
                    reached(octree, c)
                },
                None => Set::empty(),
            },
        )
    }
}

/// The leaves that the visits `s` visit.
pub open spec fn node_cells(s: Seq<DcVisit>) -> Set<MortonCode> {
    Set::new(|x: MortonCode| exists|i: int| 0 <= i < s.len() && s[i] == DcVisit::Node(x))
}

/// Whether `s` visits each leaf at most once.
pub open spec fn nodes_once(s: Seq<DcVisit>) -> bool {
    forall|i: int, j: int|
        0 <= i < s.len() && 0 <= j < s.len() && s[i] is Node && #[trigger] s[i] == #[trigger] s[j]
            ==> i == j
}

/// Whether `s` visits leaf `x` before its visit `i`.
pub open spec fn visited_before(s: Seq<DcVisit>, i: int, x: MortonCode) -> bool {
    exists|j: int| 0 <= j < i && s[j] == DcVisit::Node(x)
}

/// Whether `s` visits each leaf of a quad before the quad.
pub open spec fn nodes_first(s: Seq<DcVisit>) -> bool {
    forall|i: int|
        0 <= i < s.len() ==> match #[trigger] s[i] {
            DcVisit::Node(_) => true,
            DcVisit::Quad(a, b, c, d) => visited_before(s, i, a) && visited_before(s, i, b)
                && visited_before(s, i, c) && visited_before(s, i, d),
        }
}

/// Whether every visit of `s` is a quad of leaves among `r`.
pub open spec fn quads_among(s: Seq<DcVisit>, r: Set<MortonCode>) -> bool {
    forall|i: int|
        0 <= i < s.len() ==> match #[trigger] s[i] {
            DcVisit::Node(_) => false,
            DcVisit::Quad(a, b, c, d) => r.contains(a) && r.contains(b) && r.contains(c)
                && r.contains(d),
        }
}

/// Whether cell `x` lies in cell `a`.
pub open spec fn within(x: MortonCode, a: MortonCode) -> bool {
    x.level_spec() >= a.level_spec() && code_on_level(x, a.level_spec()) == a.code_spec()
}

proof fn lemma_quads_concat(a: Seq<DcVisit>, b: Seq<DcVisit>, r: Set<MortonCode>)
    requires
        quads_among(a, r),
        quads_among(b, r),
    ensures
        quads_among(a + b, r),
{
    assert forall|i: int| 0 <= i < (a + b).len() implies match #[trigger] (a + b)[i] {
        DcVisit::Node(_) => false,
        DcVisit::Quad(p, q, s, t) => r.contains(p) && r.contains(q) && r.contains(s) && r.contains(t),
    } by {
        if i < a.len() {
            assert((a + b)[i] == a[i]);
        } else {
            assert((a + b)[i] == b[i - a.len()]);
        }
    }
}

proof fn lemma_quads_widen(s: Seq<DcVisit>, r: Set<MortonCode>, r2: Set<MortonCode>)
    requires
        quads_among(s, r),
        r.subset_of(r2),
    ensures
        quads_among(s, r2),
{
    assert forall|i: int| 0 <= i < s.len() implies match #[trigger] s[i] {
        DcVisit::Node(_) => false,
        DcVisit::Quad(a, b, c, d) => r2.contains(a) && r2.contains(b) && r2.contains(c) && r2.contains(d),
    } by {
        match s[i] {
            DcVisit::Node(_) => {},
            DcVisit::Quad(a, b, c, d) => {
                assert(r.contains(a) && r.contains(b) && r.contains(c) && r.contains(d));
            },
        }
    }
}

/// A child among the first `k` adds its leaves to those reached through
/// them.
proof fn lemma_reached_children_has(octree: Octree, node: Node, d: nat, k: nat)
    requires
        d < k,
    ensures
        subnode(octree, node, d) matches Some(c) ==> reached(octree, c).subset_of(
            reached_children(octree, node, k),
        ),
    decreases k,
{
    if d < k - 1 {
        lemma_reached_children_has(octree, node, d, (k - 1) as nat);
    }
}

/// A child that the walk takes reaches only leaves that its node reaches.
proof fn lemma_child_reached(octree: Octree, node: Node, d: nat)
    requires
        d < 8,
    ensures
        child_node(octree, node, d) matches Some(c) ==> reached(octree, c).subset_of(
            reached(octree, node),
        ),
{
    lemma_reached_children_has(octree, node, d, 8);
}

/// The digits that the tables give are digits of a child.
proof fn lemma_table_digits()
    ensures
        forall|axis: nat, k: int|
            0 <= k < 4 ==> (#[trigger] face_subnode_pairs(axis)[k]).0 < 8 && face_subnode_pairs(
                axis,
            )[k].1 < 8,
        forall|axis: nat, k: int|
            0 <= k < 4 ==> (#[trigger] subnode_face_pairs(axis)[k]).0 < 8 && subnode_face_pairs(
                axis,
            )[k].1 < 8,
        forall|axis: nat, g: int, k: int|
            0 <= g < 2 && 0 <= k < 4 ==> #[trigger] subnode_edge_groups(axis)[g][k] < 8,
        forall|axis: nat, i: nat, k: int|
            i < 2 && 0 <= k < 4 ==> #[trigger] subedge_nodes(axis, i)[k] < 8,
        forall|axis: nat, e: nat, v: nat, k: int|
            e < 2 && v < 2 && 0 <= k < 4 ==> (#[trigger] face_edge_nodes(axis, e, v)[k]).0 < 8,
{
    assert forall|axis: nat, k: int| 0 <= k < 4 implies (#[trigger] face_subnode_pairs(axis)[k]).0
        < 8 && face_subnode_pairs(axis)[k].1 < 8 by {
        assert(k == 0 || k == 1 || k == 2 || k == 3);
    }
    assert forall|axis: nat, k: int| 0 <= k < 4 implies (#[trigger] subnode_face_pairs(axis)[k]).0
        < 8 && subnode_face_pairs(axis)[k].1 < 8 by {
        assert(k == 0 || k == 1 || k == 2 || k == 3);
    }
    assert forall|axis: nat, g: int, k: int| 0 <= g < 2 && 0 <= k < 4 implies #[trigger] subnode_edge_groups(
        axis,
    )[g][k] < 8 by {
        assert(k == 0 || k == 1 || k == 2 || k == 3);
        assert(g == 0 || g == 1);
    }
    assert forall|axis: nat, i: nat, k: int| i < 2 && 0 <= k < 4 implies #[trigger] subedge_nodes(
        axis,
        i,
    )[k] < 8 by {
        assert(k == 0 || k == 1 || k == 2 || k == 3);
        assert(i == 0 || i == 1);
    }
    assert forall|axis: nat, e: nat, v: nat, k: int| e < 2 && v < 2 && 0 <= k < 4 implies (
    #[trigger] face_edge_nodes(axis, e, v)[k]).0 < 8 by {
        assert(k == 0 || k == 1 || k == 2 || k == 3);
        assert(e == 0 || e == 1);
        assert(v == 0 || v == 1);
    }
}

proof fn lemma_edge_quads(
    octree: Octree,
    is_seam: bool,
    axis: nat,
    n0: Node,
    n1: Node,
    n2: Node,
    n3: Node,
)
    ensures
        quads_among(
            edge_visits(octree, is_seam, axis, n0, n1, n2, n3),
            reached(octree, n0).union(reached(octree, n1)).union(reached(octree, n2)).union(
                reached(octree, n3),
            ),
        ),
    decreases weight(n0) + weight(n1) + weight(n2) + weight(n3), 1nat,
{
    let r = reached(octree, n0).union(reached(octree, n1)).union(reached(octree, n2)).union(
        reached(octree, n3),
    );
    if n0.node_type == NodeType::Leaf && n1.node_type == NodeType::Leaf && n2.node_type
        == NodeType::Leaf && n3.node_type == NodeType::Leaf {
        let s = edge_visits(octree, is_seam, axis, n0, n1, n2, n3);
        assert(r.contains(n0.address) && r.contains(n1.address) && r.contains(n2.address)
            && r.contains(n3.address));
        assert forall|i: int| 0 <= i < s.len() implies match #[trigger] s[i] {
            DcVisit::Node(_) => false,
            DcVisit::Quad(a, b, c, d) => r.contains(a) && r.contains(b) && r.contains(c)
                && r.contains(d),
        } by {
            assert(i == 0);
        }
    } else {
        lemma_half_edge_quads(octree, is_seam, axis, n0, n1, n2, n3, 0);
        lemma_half_edge_quads(octree, is_seam, axis, n0, n1, n2, n3, 1);
        lemma_quads_concat(
            half_edge_visits(octree, is_seam, axis, n0, n1, n2, n3, 0),
            half_edge_visits(octree, is_seam, axis, n0, n1, n2, n3, 1),
            r,
        );
    }
}

proof fn lemma_half_edge_quads(
    octree: Octree,
    is_seam: bool,
    axis: nat,
    n0: Node,
    n1: Node,
    n2: Node,
    n3: Node,
    i: nat,
)
    requires
        i < 2,
    ensures
        quads_among(
            half_edge_visits(octree, is_seam, axis, n0, n1, n2, n3, i),
            reached(octree, n0).union(reached(octree, n1)).union(reached(octree, n2)).union(
                reached(octree, n3),
            ),
        ),
    decreases weight(n0) + weight(n1) + weight(n2) + weight(n3), 0nat,
{
    let r = reached(octree, n0).union(reached(octree, n1)).union(reached(octree, n2)).union(
        reached(octree, n3),
    );
    let d = subedge_nodes(axis, i);
    lemma_table_digits();
    assert(d[0] < 8 && d[1] < 8 && d[2] < 8 && d[3] < 8);
    lemma_child_node(octree, n0, d[0]);
    lemma_child_node(octree, n1, d[1]);
    lemma_child_node(octree, n2, d[2]);
    lemma_child_node(octree, n3, d[3]);
    lemma_child_reached(octree, n0, d[0]);
    lemma_child_reached(octree, n1, d[1]);
    lemma_child_reached(octree, n2, d[2]);
    lemma_child_reached(octree, n3, d[3]);
    match (
        child_node(octree, n0, d[0]),
        child_node(octree, n1, d[1]),
        child_node(octree, n2, d[2]),
        child_node(octree, n3, d[3]),
    ) {
        (Some(c0), Some(c1), Some(c2), Some(c3)) => {
            if !(n0.node_type == NodeType::Leaf && n1.node_type == NodeType::Leaf && n2.node_type
                == NodeType::Leaf && n3.node_type == NodeType::Leaf) {
                lemma_edge_quads(octree, is_seam, axis, c0, c1, c2, c3);
                lemma_quads_widen(
                    edge_visits(octree, is_seam, axis, c0, c1, c2, c3),
                    reached(octree, c0).union(reached(octree, c1)).union(reached(octree, c2)).union(
                        reached(octree, c3),
                    ),
                    r,
                );
            }
        },
        _ => {},
    }
}

proof fn lemma_face_quads(octree: Octree, is_seam: bool, axis: nat, n0: Node, n1: Node)
    ensures
        quads_among(
            face_visits(octree, is_seam, axis, n0, n1),
            reached(octree, n0).union(reached(octree, n1)),
        ),
    decreases weight(n0) + weight(n1), 1nat, 0nat,
{
    if !(n0.node_type == NodeType::Leaf && n1.node_type == NodeType::Leaf) {
        lemma_sub_face_quads(octree, is_seam, axis, n0, n1, 4);
        lemma_face_edge_quads(octree, is_seam, axis, n0, n1, 4);
        lemma_quads_concat(
            sub_face_visits(octree, is_seam, axis, n0, n1, 4),
            face_edge_visits(octree, is_seam, axis, n0, n1, 4),
            reached(octree, n0).union(reached(octree, n1)),
        );
    }
}

proof fn lemma_sub_face_quads(octree: Octree, is_seam: bool, axis: nat, n0: Node, n1: Node, k: nat)
    requires
        k <= 4,
    ensures
        quads_among(
            sub_face_visits(octree, is_seam, axis, n0, n1, k),
            reached(octree, n0).union(reached(octree, n1)),
        ),
    decreases weight(n0) + weight(n1), 0nat, k,
{
    let r = reached(octree, n0).union(reached(octree, n1));
    if k > 0 {
        let (d0, d1) = face_subnode_pairs(axis)[k - 1];
        lemma_table_digits();
        assert(face_subnode_pairs(axis)[k - 1].0 < 8);
        lemma_sub_face_quads(octree, is_seam, axis, n0, n1, (k - 1) as nat);
        lemma_child_node(octree, n0, d0);
        lemma_child_node(octree, n1, d1);
        lemma_child_reached(octree, n0, d0);
        lemma_child_reached(octree, n1, d1);
        let last = match (child_node(octree, n0, d0), child_node(octree, n1, d1)) {
            (Some(c0), Some(c1)) => if n0.node_type == NodeType::Leaf && n1.node_type
                == NodeType::Leaf {
                seq![]
            } else {
                face_visits(octree, is_seam, axis, c0, c1)
            },
            _ => seq![],
        };
        match (child_node(octree, n0, d0), child_node(octree, n1, d1)) {
            (Some(c0), Some(c1)) => {
                if !(n0.node_type == NodeType::Leaf && n1.node_type == NodeType::Leaf) {
                    lemma_face_quads(octree, is_seam, axis, c0, c1);
                    lemma_quads_widen(
                        face_visits(octree, is_seam, axis, c0, c1),
                        reached(octree, c0).union(reached(octree, c1)),
                        r,
                    );
                }
            },
            _ => {},
        }
        assert(quads_among(last, r));
        lemma_quads_concat(sub_face_visits(octree, is_seam, axis, n0, n1, (k - 1) as nat), last, r);
    }
}

proof fn lemma_face_edge_quads(octree: Octree, is_seam: bool, axis: nat, n0: Node, n1: Node, j: nat)
    requires
        j <= 4,
    ensures
        quads_among(
            face_edge_visits(octree, is_seam, axis, n0, n1, j),
            reached(octree, n0).union(reached(octree, n1)),
        ),
    decreases j,
{
    let r = reached(octree, n0).union(reached(octree, n1));
    if j > 0 {
        let t = (j - 1) as nat;
        lemma_face_edge_quads(octree, is_seam, axis, n0, n1, t);
        let entries = face_edge_nodes(axis, t / 2, t % 2);
        lemma_table_digits();
        assert(entries[0].0 < 8 && entries[1].0 < 8 && entries[2].0 < 8 && entries[3].0 < 8);
        let m0 = pick2(entries[0].1, n0, n1);
        let m1 = pick2(entries[1].1, n0, n1);
        let m2 = pick2(entries[2].1, n0, n1);
        let m3 = pick2(entries[3].1, n0, n1);
        lemma_child_reached(octree, m0, entries[0].0);
        lemma_child_reached(octree, m1, entries[1].0);
        lemma_child_reached(octree, m2, entries[2].0);
        lemma_child_reached(octree, m3, entries[3].0);
        assert(reached(octree, m0).subset_of(r) && reached(octree, m1).subset_of(r) && reached(
            octree,
            m2,
        ).subset_of(r) && reached(octree, m3).subset_of(r));
        match (
            child_node(octree, m0, entries[0].0),
            child_node(octree, m1, entries[1].0),
            child_node(octree, m2, entries[2].0),
            child_node(octree, m3, entries[3].0),
        ) {
            (Some(c0), Some(c1), Some(c2), Some(c3)) => {
                let ax = face_edge_axes(axis)[(t / 2) as int];
                lemma_edge_quads(octree, is_seam, ax, c0, c1, c2, c3);
                lemma_quads_widen(
                    edge_visits(octree, is_seam, ax, c0, c1, c2, c3),
                    reached(octree, c0).union(reached(octree, c1)).union(reached(octree, c2)).union(
                        reached(octree, c3),
                    ),
                    r,
                );
            },
            _ => {},
        }
        lemma_quads_concat(
            face_edge_visits(octree, is_seam, axis, n0, n1, t),
            face_edge_visit(octree, is_seam, axis, n0, n1, t),
            r,
        );
    }
}

proof fn lemma_inner_face_quads(octree: Octree, is_seam: bool, node: Node, j: nat)
    requires
        j <= 12,
    ensures
        quads_among(inner_face_visits(octree, is_seam, node, j), reached_children(octree, node, 8)),
    decreases j,
{
    let r = reached_children(octree, node, 8);
    if j > 0 {
        let t = (j - 1) as nat;
        lemma_inner_face_quads(octree, is_seam, node, t);
        let (l, rr) = subnode_face_pairs(t / 4)[(t % 4) as int];
        lemma_table_digits();
        assert(subnode_face_pairs(t / 4)[(t % 4) as int].0 < 8);
        lemma_reached_children_has(octree, node, l, 8);
        lemma_reached_children_has(octree, node, rr, 8);
        match (subnode(octree, node, l), subnode(octree, node, rr)) {
            (Some(a), Some(b)) => {
                lemma_face_quads(octree, is_seam, t / 4, a, b);
                lemma_quads_widen(
                    face_visits(octree, is_seam, t / 4, a, b),
                    reached(octree, a).union(reached(octree, b)),
                    r,
                );
            },
            _ => {},
        }
        lemma_quads_concat(
            inner_face_visits(octree, is_seam, node, t),
            inner_face_visit(octree, is_seam, node, t),
            r,
        );
    }
}

proof fn lemma_inner_edge_quads(octree: Octree, is_seam: bool, node: Node, j: nat)
    requires
        j <= 6,
    ensures
        quads_among(inner_edge_visits(octree, is_seam, node, j), reached_children(octree, node, 8)),
    decreases j,
{
    let r = reached_children(octree, node, 8);
    if j > 0 {
        let t = (j - 1) as nat;
        lemma_inner_edge_quads(octree, is_seam, node, t);
        let d = subnode_edge_groups(t / 2)[(t % 2) as int];
        lemma_table_digits();
        assert(d[0] < 8 && d[1] < 8 && d[2] < 8 && d[3] < 8);
        lemma_reached_children_has(octree, node, d[0], 8);
        lemma_reached_children_has(octree, node, d[1], 8);
        lemma_reached_children_has(octree, node, d[2], 8);
        lemma_reached_children_has(octree, node, d[3], 8);
        match (
            subnode(octree, node, d[0]),
            subnode(octree, node, d[1]),
            subnode(octree, node, d[2]),
            subnode(octree, node, d[3]),
        ) {
            (Some(c0), Some(c1), Some(c2), Some(c3)) => {
                lemma_edge_quads(octree, is_seam, t / 2, c0, c1, c2, c3);
                lemma_quads_widen(
                    edge_visits(octree, is_seam, t / 2, c0, c1, c2, c3),
                    reached(octree, c0).union(reached(octree, c1)).union(reached(octree, c2)).union(
                        reached(octree, c3),
                    ),
                    r,
                );
            },
            _ => {},
        }
        lemma_quads_concat(
            inner_edge_visits(octree, is_seam, node, t),
            inner_edge_visit(octree, is_seam, node, t),
            r,
        );
    }
}


/// A cell within a child of `a` lies within `a`, and within no other child
/// of `a`.
pub(crate) proof fn lemma_within_child(x: MortonCode, a: MortonCode, d: nat)
    requires
        a.wf(),
        a.level_spec() < 21,
        d < 8,
        within(x, a.child_spec(d)),
    ensures
        within(x, a),
        forall|e: nat| e < 8 && within(x, #[trigger] a.child_spec(e)) ==> e == d,
{
    a.lemma_child_parent(d);
    let m = (x.level_spec() - a.level_spec() - 1) as nat;
    lemma_pow8_positive(m);
    assert(pow8(m + 1) == 8 * pow8(m));
    assert((x.level_spec() - a.level_spec()) as nat == m + 1);
    vstd::arithmetic::div_mod::lemma_div_denominator(x.code_spec() as int, pow8(m) as int, 8);
    assert(x.code_spec() / pow8(m) == a.code_spec() * 8 + d);
    assert((a.code_spec() * 8 + d) / 8 == a.code_spec()) by (nonlinear_arith)
        requires
            d < 8,
    ;
    assert forall|e: nat| e < 8 && within(x, #[trigger] a.child_spec(e)) implies e == d by {
        a.lemma_child_parent(e);
    }
}

/// Every leaf that a node at a valid cell reaches lies within that cell.
proof fn lemma_reached_within(octree: Octree, node: Node)
    requires
        node.address.wf(),
    ensures
        forall|x: MortonCode| #[trigger] reached(octree, node).contains(x) ==> within(x, node.address),
    decreases 21 - node.address.level_spec(), 1nat, 0nat,
{
    if node.node_type == NodeType::Leaf {
        assert(pow8(0) == 1);
        assert forall|x: MortonCode| #[trigger] reached(octree, node).contains(x) implies within(x, node.address) by {
            assert(x == node.address);
            assert((x.level_spec() - node.address.level_spec()) as nat == 0);
        }
    } else {
        lemma_reached_children_within(octree, node, 8);
        assert(reached(octree, node) == reached_children(octree, node, 8));
    }
}

/// Every leaf reached through the first `k` children of a node lies within
/// one of those children, which the octree holds.
proof fn lemma_reached_children_within(octree: Octree, node: Node, k: nat)
    requires
        node.address.wf(),
        k <= 8,
    ensures
        forall|x: MortonCode| #[trigger] reached_children(octree, node, k).contains(x) ==> exists|d: nat|
            d < k && subnode(octree, node, d) is Some && within(x, #[trigger] node.address.child_spec(d)),
        forall|x: MortonCode| #[trigger] reached_children(octree, node, k).contains(x) ==> within(x, node.address),
    decreases 21 - node.address.level_spec(), 0nat, k,
{
    if k > 0 {
        let d = (k - 1) as nat;
        lemma_reached_children_within(octree, node, d);
        lemma_child_node(octree, node, d);
        match subnode(octree, node, d) {
            Some(c) => {
                node.address.lemma_child_parent(d);
                lemma_reached_within(octree, c);
                assert forall|x: MortonCode| #[trigger] reached_children(octree, node, k).contains(x) implies (exists|e: nat|
                    e < k && subnode(octree, node, e) is Some && within(x, #[trigger] node.address.child_spec(e)))
                    && within(x, node.address) by {
                    if reached(octree, c).contains(x) {
                        lemma_within_child(x, node.address, d);
                        assert(within(x, node.address.child_spec(d)));
                    } else {
                        assert(reached_children(octree, node, d).contains(x));
                    }
                }
            },
            None => {
                assert(reached_children(octree, node, k) =~= reached_children(octree, node, d));
            },
        }
    }
}

/// The leaves visited by two runs of visits one after the other.
proof fn lemma_cells_concat(a: Seq<DcVisit>, b: Seq<DcVisit>)
    ensures
        node_cells(a + b) == node_cells(a).union(node_cells(b)),
{
    assert forall|x: MortonCode| node_cells(a + b).contains(x) <==> node_cells(a).union(node_cells(b)).contains(x) by {
        if node_cells(a + b).contains(x) {
            let i = choose|i: int| 0 <= i < (a + b).len() && (a + b)[i] == DcVisit::Node(x);
            if i < a.len() {
                assert(a[i] == DcVisit::Node(x));
            } else {
                assert(b[i - a.len()] == DcVisit::Node(x));
            }
        }
        if node_cells(a).contains(x) {
            let i = choose|i: int| 0 <= i < a.len() && a[i] == DcVisit::Node(x);
            assert((a + b)[i] == DcVisit::Node(x));
        }
        if node_cells(b).contains(x) {
            let i = choose|i: int| 0 <= i < b.len() && b[i] == DcVisit::Node(x);
            assert((a + b)[i + a.len()] == DcVisit::Node(x));
        }
    }
    assert(node_cells(a + b) =~= node_cells(a).union(node_cells(b)));
}

/// Quads alone visit no leaf.
proof fn lemma_quads_no_cells(s: Seq<DcVisit>, r: Set<MortonCode>)
    requires
        quads_among(s, r),
    ensures
        node_cells(s) == Set::<MortonCode>::empty(),
{
    assert forall|x: MortonCode| !node_cells(s).contains(x) by {
        if node_cells(s).contains(x) {
            let i = choose|i: int| 0 <= i < s.len() && s[i] == DcVisit::Node(x);
            assert(match s[i] {
                DcVisit::Node(_) => false,
                DcVisit::Quad(..) => true,
            });
        }
    }
    assert(node_cells(s) =~= Set::<MortonCode>::empty());
}

/// Two runs that each visit a leaf at most once, and no leaf both, visit
/// each leaf at most once one after the other.
proof fn lemma_once_concat(a: Seq<DcVisit>, b: Seq<DcVisit>)
    requires
        nodes_once(a),
        nodes_once(b),
        node_cells(a).disjoint(node_cells(b)),
    ensures
        nodes_once(a + b),
{
    let s = a + b;
    assert forall|i: int, j: int|
        0 <= i < s.len() && 0 <= j < s.len() && s[i] is Node && #[trigger] s[i] == #[trigger] s[j]
            implies i == j by {
        let x = s[i]->Node_0;
        if i < a.len() && j < a.len() {
            assert(a[i] == a[j]);
        } else if i >= a.len() && j >= a.len() {
            assert(b[i - a.len()] == b[j - a.len()]);
        } else if i < a.len() {
            assert(a[i] == DcVisit::Node(x));
            assert(b[j - a.len()] == DcVisit::Node(x));
            assert(node_cells(a).contains(x));
            assert(node_cells(b).contains(x));
        } else {
            assert(b[i - a.len()] == DcVisit::Node(x));
            assert(a[j] == DcVisit::Node(x));
            assert(node_cells(a).contains(x));
            assert(node_cells(b).contains(x));
        }
    }
}

/// A run of quads adds no second visit of a leaf.
proof fn lemma_once_quads(a: Seq<DcVisit>, b: Seq<DcVisit>, r: Set<MortonCode>)
    requires
        nodes_once(a),
        quads_among(b, r),
    ensures
        nodes_once(a + b),
{
    let s = a + b;
    assert forall|i: int, j: int|
        0 <= i < s.len() && 0 <= j < s.len() && s[i] is Node && #[trigger] s[i] == #[trigger] s[j]
            implies i == j by {
        if i >= a.len() {
            assert(s[i] == b[i - a.len()]);
            assert(match b[i - a.len()] {
                DcVisit::Node(_) => false,
                DcVisit::Quad(..) => true,
            });
        } else if j >= a.len() {
            assert(s[j] == b[j - a.len()]);
            assert(match b[j - a.len()] {
                DcVisit::Node(_) => false,
                DcVisit::Quad(..) => true,
            });
        } else {
            assert(a[i] == a[j]);
        }
    }
}

/// Two runs that each visit the leaves of a quad first do so one after the
/// other.
proof fn lemma_first_concat(a: Seq<DcVisit>, b: Seq<DcVisit>)
    requires
        nodes_first(a),
        nodes_first(b),
    ensures
        nodes_first(a + b),
{
    let s = a + b;
    assert forall|i: int| 0 <= i < s.len() implies match #[trigger] s[i] {
        DcVisit::Node(_) => true,
        DcVisit::Quad(p, q, u, v) => visited_before(s, i, p) && visited_before(s, i, q)
            && visited_before(s, i, u) && visited_before(s, i, v),
    } by {
        if i < a.len() {
            assert(s[i] == a[i]);
            assert forall|x: MortonCode| visited_before(a, i, x) implies visited_before(s, i, x) by {
                let j = choose|j: int| 0 <= j < i && a[j] == DcVisit::Node(x);
                assert(s[j] == a[j]);
            }
        } else {
            let k = i - a.len();
            assert(s[i] == b[k]);
            assert(match b[k] {
                DcVisit::Node(_) => true,
                DcVisit::Quad(p, q, u, v) => visited_before(b, k, p) && visited_before(b, k, q)
                    && visited_before(b, k, u) && visited_before(b, k, v),
            });
            assert forall|x: MortonCode| visited_before(b, k, x) implies visited_before(s, i, x) by {
                let j = choose|j: int| 0 <= j < k && b[j] == DcVisit::Node(x);
                assert(s[j + a.len()] == b[j]);
            }
        }
    }
}

/// Quads of leaves that a run visits, after that run, come after the visits
/// of their leaves.
proof fn lemma_first_quads(a: Seq<DcVisit>, b: Seq<DcVisit>, r: Set<MortonCode>)
    requires
        nodes_first(a),
        quads_among(b, r),
        r.subset_of(node_cells(a)),
    ensures
        nodes_first(a + b),
{
    let s = a + b;
    assert forall|i: int| 0 <= i < s.len() implies match #[trigger] s[i] {
        DcVisit::Node(_) => true,
        DcVisit::Quad(p, q, u, v) => visited_before(s, i, p) && visited_before(s, i, q)
            && visited_before(s, i, u) && visited_before(s, i, v),
    } by {
        if i < a.len() {
            assert(s[i] == a[i]);
            assert forall|x: MortonCode| visited_before(a, i, x) implies visited_before(s, i, x) by {
                let j = choose|j: int| 0 <= j < i && a[j] == DcVisit::Node(x);
                assert(s[j] == a[j]);
            }
        } else {
            let k = i - a.len();
            assert(s[i] == b[k]);
            assert forall|x: MortonCode| r.contains(x) implies visited_before(s, i, x) by {
                assert(node_cells(a).contains(x));
                let j = choose|j: int| 0 <= j < a.len() && a[j] == DcVisit::Node(x);
                assert(s[j] == a[j]);
            }
        }
    }
}


/// The visits of a node at a valid cell visit exactly the leaves that it
/// reaches, each once, and each leaf of a quad before the quad.
proof fn lemma_node_visits_order(octree: Octree, is_seam: bool, node: Node)
    requires
        node.address.wf(),
    ensures
        node_cells(node_visits(octree, is_seam, node)) == reached(octree, node),
        nodes_once(node_visits(octree, is_seam, node)),
        nodes_first(node_visits(octree, is_seam, node)),
    decreases 21 - node.address.level_spec(), 1nat, 0nat,
{
    let s = node_visits(octree, is_seam, node);
    if node.node_type == NodeType::Leaf {
        assert(s[0] == DcVisit::Node(node.address));
        assert(node_cells(s) =~= set![node.address]);
    } else {
        let a = children_visits(octree, is_seam, node, 8);
        let f = inner_face_visits(octree, is_seam, node, 12);
        let e = inner_edge_visits(octree, is_seam, node, 6);
        let r = reached_children(octree, node, 8);
        assert(s == a + f + e);
        lemma_children_visits_order(octree, is_seam, node, 8);
        lemma_inner_face_quads(octree, is_seam, node, 12);
        lemma_inner_edge_quads(octree, is_seam, node, 6);
        lemma_cells_concat(a, f);
        lemma_quads_no_cells(f, r);
        assert(node_cells(a + f) =~= r);
        lemma_cells_concat(a + f, e);
        lemma_quads_no_cells(e, r);
        assert(node_cells(s) =~= r);
        lemma_first_quads(a, f, r);
        lemma_first_quads(a + f, e, r);
        lemma_once_quads(a, f, r);
        lemma_once_quads(a + f, e, r);
    }
}

/// The visits of the first `k` children of a node at a valid cell visit
/// exactly the leaves reached through them, each once, and each leaf of a
/// quad before the quad.
proof fn lemma_children_visits_order(octree: Octree, is_seam: bool, node: Node, k: nat)
    requires
        node.address.wf(),
        k <= 8,
    ensures
        node_cells(children_visits(octree, is_seam, node, k)) == reached_children(octree, node, k),
        nodes_once(children_visits(octree, is_seam, node, k)),
        nodes_first(children_visits(octree, is_seam, node, k)),
    decreases 21 - node.address.level_spec(), 0nat, k,
{
    let s = children_visits(octree, is_seam, node, k);
    if k == 0 {
        assert(node_cells(s) =~= Set::<MortonCode>::empty());
    } else {
        let d = (k - 1) as nat;
        let a = children_visits(octree, is_seam, node, d);
        lemma_children_visits_order(octree, is_seam, node, d);
        lemma_child_node(octree, node, d);
        match subnode(octree, node, d) {
            Some(c) => {
                let b = node_visits(octree, is_seam, c);
                assert(s == a + b);
                node.address.lemma_child_parent(d);
                lemma_node_visits_order(octree, is_seam, c);
                lemma_reached_children_within(octree, node, d);
                lemma_reached_within(octree, c);
                assert forall|x: MortonCode| !(node_cells(a).contains(x) && node_cells(b).contains(x)) by {
                    if node_cells(a).contains(x) && node_cells(b).contains(x) {
                        assert(reached_children(octree, node, d).contains(x));
                        assert(reached(octree, c).contains(x));
                        lemma_within_child(x, node.address, d);
                    }
                }
                lemma_cells_concat(a, b);
                lemma_once_concat(a, b);
                lemma_first_concat(a, b);
            },
            None => {
                assert(s =~= a);
                assert(reached_children(octree, node, k) =~= reached_children(octree, node, d));
            },
        }
    }
}

/// Dual contouring over an octree without a root visits nothing; over one
/// with a root it visits exactly the leaves reached from the root through
/// the children that the octree holds, each of them once, and visits each
/// leaf of a quad before the quad.
pub proof fn lemma_dual_contouring_visits_once(octree: Octree, is_seam: bool)
    ensures
        octree.node_at(MortonCode::root_spec()) is None ==> octree_visits(octree, is_seam) == Seq::<
            DcVisit,
        >::empty(),
        octree.node_at(MortonCode::root_spec()) matches Some(root) ==> {
            &&& node_cells(octree_visits(octree, is_seam)) == reached(octree, root)
            &&& nodes_once(octree_visits(octree, is_seam))
            &&& nodes_first(octree_visits(octree, is_seam))
        },
{
    match octree.node_at(MortonCode::root_spec()) {
        Some(root) => {
            MortonCode::lemma_root_spec();
            lemma_node_visits_order(octree, is_seam, root);
        },
        None => {
            assert(octree_visits(octree, is_seam) =~= Seq::<DcVisit>::empty());
        },
    }
}


/// Whether node `m` of the four `ns` is the first of the deepest (smallest)
/// of them.
pub open spec fn first_deepest(m: int, ns: Seq<Node>) -> bool {
    &&& 0 <= m < 4
    &&& forall|j: int| 0 <= j < 4 ==> (#[trigger] ns[j]).address.level_spec() <= ns[m].address.level_spec()
    &&& forall|j: int| 0 <= j < m ==> (#[trigger] ns[j]).address.level_spec() < ns[m].address.level_spec()
}

/// The edge along `axis` between four leaves is a minimal edge, and the
/// smallest of the four sees all of it: the walk reads the two corners on
/// that edge of the first of the deepest leaves. Where their materials are
/// the same there is no quad; where they differ there is one quad of the
/// four leaves, in order where the low corner is solid and turned where it
/// is air. In a seam octree, four leaves of one chunk give nothing.
pub proof fn lemma_leaf_edge_reads_deepest(
    octree: Octree,
    is_seam: bool,
    axis: nat,
    n0: Node,
    n1: Node,
    n2: Node,
    n3: Node,
    m: int,
)
    requires
        n0.node_type == NodeType::Leaf,
        n1.node_type == NodeType::Leaf,
        n2.node_type == NodeType::Leaf,
        n3.node_type == NodeType::Leaf,
        first_deepest(m, seq![n0, n1, n2, n3]),
    ensures
        is_seam && same_chunk(n0, n1, n2, n3) ==> edge_visits(octree, is_seam, axis, n0, n1, n2, n3)
            == Seq::<DcVisit>::empty(),
        !(is_seam && same_chunk(n0, n1, n2, n3)) ==> ({
            let (a, b) = edge_node_vertices(axis, m as nat);
            let mat0 = seq![n0, n1, n2, n3][m].vertices_mat_types[a as int];
            let mat1 = seq![n0, n1, n2, n3][m].vertices_mat_types[b as int];
            edge_visits(octree, is_seam, axis, n0, n1, n2, n3) == if mat0 == mat1 {
                Seq::<DcVisit>::empty()
            } else if mat0 == VoxelMaterialType::Air {
                seq![DcVisit::Quad(n2.address, n3.address, n0.address, n1.address)]
            } else {
                seq![DcVisit::Quad(n0.address, n1.address, n2.address, n3.address)]
            }
        }),
{
    let ns = seq![n0, n1, n2, n3];
    let l0 = n0.address.level_spec();
    let l1 = n1.address.level_spec();
    let l2 = n2.address.level_spec();
    let l3 = n3.address.level_spec();
    assert(ns[0] == n0 && ns[1] == n1 && ns[2] == n2 && ns[3] == n3);
    let lm = ns[m].address.level_spec();
    assert(l0 <= lm && l1 <= lm && l2 <= lm && l3 <= lm);
    if m >= 1 {
        assert(l0 < lm);
    }
    if m >= 2 {
        assert(l1 < lm);
    }
    if m >= 3 {
        assert(l2 < lm);
    }
    assert(crate::dual_contouring::deepest_of_four(l0, l1, l2, l3) == m);
    assert(pick(m as nat, n0, n1, n2, n3) == ns[m]);
    if is_seam && same_chunk(n0, n1, n2, n3) {
        assert(edge_visits(octree, is_seam, axis, n0, n1, n2, n3) =~= Seq::<DcVisit>::empty());
    }
}

} // verus!

//! The tables that walk the faces and edges of an octree for dual
//! contouring. Children are named by their vertex number (`x + 2y + 4z`),
//! axes by 0 (x), 1 (y) and 2 (z).
use vstd::prelude::*;
use crate::tables::{VertexIndex, AxisValue, face_of, face_subnode};

verus! {

/// The pairs of children on either side of the four inner faces across
/// `axis` of a node, the low side first.
pub open spec fn subnode_face_pairs(axis: nat) -> Seq<(nat, nat)> {
    if axis == 0 {
        seq![(0, 1), (2, 3), (4, 5), (6, 7)]
    } else if axis == 1 {
        seq![(0, 2), (1, 3), (4, 6), (5, 7)]
    } else {
        seq![(0, 4), (1, 5), (2, 6), (3, 7)]
    }
}

/// The pairs of children that meet across the face between two
/// neighbours on `axis`: the low neighbour's child (on its high side)
/// first.
pub open spec fn face_subnode_pairs(axis: nat) -> Seq<(nat, nat)> {
    if axis == 0 {
        seq![(1, 0), (3, 2), (5, 4), (7, 6)]
    } else if axis == 1 {
        seq![(2, 0), (3, 1), (6, 4), (7, 5)]
    } else {
        seq![(4, 0), (5, 1), (6, 2), (7, 3)]
    }
}

/// The two groups of four children around the two inner edges along
/// `axis` of a node.
pub open spec fn subnode_edge_groups(axis: nat) -> Seq<Seq<nat>> {
    if axis == 0 {
        seq![seq![0, 4, 2, 6], seq![1, 5, 3, 7]]
    } else if axis == 1 {
        seq![seq![0, 1, 4, 5], seq![2, 3, 6, 7]]
    } else {
        seq![seq![1, 0, 3, 2], seq![5, 4, 7, 6]]
    }
}

/// The axes of the edges that lie in a face across `axis`.
pub open spec fn face_edge_axes(axis: nat) -> Seq<nat> {
    if axis == 0 {
        seq![1, 2]
    } else if axis == 1 {
        seq![0, 2]
    } else {
        seq![0, 1]
    }
}

/// The four children around one of the four edges inside the face between
/// two neighbours on `axis`: the edge's axis is `face_edge_axes(axis)[e]`,
/// `v` picks one of the two; each entry is a child and the neighbour (0
/// low, 1 high) it belongs to.
pub open spec fn face_edge_nodes(axis: nat, e: nat, v: nat) -> Seq<(nat, nat)> {
    if axis == 0 {
        if e == 0 {
            if v == 0 {
                seq![(1, 0), (0, 1), (5, 0), (4, 1)]
            } else {
                seq![(3, 0), (2, 1), (7, 0), (6, 1)]
            }
        } else {
            if v == 0 {
                seq![(0, 1), (1, 0), (2, 1), (3, 0)]
            } else {
                seq![(4, 1), (5, 0), (6, 1), (7, 0)]
            }
        }
    } else if axis == 1 {
        if e == 0 {
            if v == 0 {
                seq![(2, 0), (6, 0), (0, 1), (4, 1)]
            } else {
                seq![(3, 0), (7, 0), (1, 1), (5, 1)]
            }
        } else {
            if v == 0 {
                seq![(3, 0), (2, 0), (1, 1), (0, 1)]
            } else {
                seq![(7, 0), (6, 0), (5, 1), (4, 1)]
            }
        }
    } else {
        if e == 0 {
            if v == 0 {
                seq![(4, 0), (0, 1), (6, 0), (2, 1)]
            } else {
                seq![(5, 0), (1, 1), (7, 0), (3, 1)]
            }
        } else {
            if v == 0 {
                seq![(4, 0), (5, 0), (0, 1), (1, 1)]
            } else {
                seq![(6, 0), (7, 0), (2, 1), (3, 1)]
            }
        }
    }
}

/// The children of the four nodes around an edge along `axis` that lie
/// around its low (`i == 0`) or high (`i == 1`) half.
pub open spec fn subedge_nodes(axis: nat, i: nat) -> Seq<nat> {
    if axis == 0 {
        if i == 0 {
            seq![6, 2, 4, 0]
        } else {
            seq![7, 3, 5, 1]
        }
    } else if axis == 1 {
        if i == 0 {
            seq![5, 4, 1, 0]
        } else {
            seq![7, 6, 3, 2]
        }
    } else {
        if i == 0 {
            seq![2, 3, 0, 1]
        } else {
            seq![6, 7, 4, 5]
        }
    }
}

/// The two corners, low first, that the edge along `axis` joins in the
/// `m`-th of the four nodes around it.
pub open spec fn edge_node_vertices(axis: nat, m: nat) -> (nat, nat) {
    if axis == 0 {
        ((6 - 2 * m) as nat, (7 - 2 * m) as nat)
    } else if axis == 1 {
        if m == 0 {
            (5, 7)
        } else if m == 1 {
            (4, 6)
        } else if m == 2 {
            (1, 3)
        } else {
            (0, 2)
        }
    } else {
        if m == 0 {
            (2, 6)
        } else if m == 1 {
            (3, 7)
        } else if m == 2 {
            (0, 4)
        } else {
            (1, 5)
        }
    }
}

/// The vertex numbered `n` (below 8).
fn vertex(n: u8) -> (r: VertexIndex)
    requires
        n < 8,
    ensures
        r.repr() == n,
{
    match n {
        0 => VertexIndex::X0Y0Z0,
        1 => VertexIndex::X1Y0Z0,
        2 => VertexIndex::X0Y1Z0,
        3 => VertexIndex::X1Y1Z0,
        4 => VertexIndex::X0Y0Z1,
        5 => VertexIndex::X1Y0Z1,
        6 => VertexIndex::X0Y1Z1,
        _ => VertexIndex::X1Y1Z1,
    }
}

/// `subnode_face_pairs(axis)[k]`.
pub fn subnode_faces_neighbor_pair(axis: usize, k: usize) -> (r: (VertexIndex, VertexIndex))
    requires
        axis < 3,
        k < 4,
    ensures
        r.0.repr() == subnode_face_pairs(axis as nat)[k as int].0,
        r.1.repr() == subnode_face_pairs(axis as nat)[k as int].1,
{
    let k8 = k as u8;
    if axis == 0 {
        (vertex(2 * k8), vertex(2 * k8 + 1))
    } else if axis == 1 {
        let low = 4 * (k8 / 2) + k8 % 2;
        (vertex(low), vertex(low + 2))
    } else {
        (vertex(k8), vertex(k8 + 4))
    }
}

/// `face_subnode_pairs(axis)[k]`.
pub fn faces_subnodes_neighbor_pair(axis: usize, k: usize) -> (r: (VertexIndex, VertexIndex))
    requires
        axis < 3,
        k < 4,
    ensures
        r.0.repr() == face_subnode_pairs(axis as nat)[k as int].0,
        r.1.repr() == face_subnode_pairs(axis as nat)[k as int].1,
{
    let (low, high) = subnode_faces_neighbor_pair(axis, k);
    (high, low)
}

/// `subnode_edge_groups(axis)[g]`.
pub fn subnode_edges_neighbor_group(axis: usize, g: usize) -> (r: [VertexIndex; 4])
    requires
        axis < 3,
        g < 2,
    ensures
        forall|j: int| 0 <= j < 4 ==> #[trigger] r[j].repr() == subnode_edge_groups(axis as nat)[g as int][j],
{
    let r = if axis == 0 {
        if g == 0 {
            [vertex(0), vertex(4), vertex(2), vertex(6)]
        } else {
            [vertex(1), vertex(5), vertex(3), vertex(7)]
        }
    } else if axis == 1 {
        if g == 0 {
            [vertex(0), vertex(1), vertex(4), vertex(5)]
        } else {
            [vertex(2), vertex(3), vertex(6), vertex(7)]
        }
    } else {
        if g == 0 {
            [vertex(1), vertex(0), vertex(3), vertex(2)]
        } else {
            [vertex(5), vertex(4), vertex(7), vertex(6)]
        }
    };
    assert forall|j: int| 0 <= j < 4 implies #[trigger] r[j].repr() == subnode_edge_groups(
        axis as nat,
    )[g as int][j] by {
        assert(j == 0 || j == 1 || j == 2 || j == 3);
    }
    r
}

/// `face_edge_axes(axis)[e]`.
pub fn face_to_sub_edges_axis_type(axis: usize, e: usize) -> (r: usize)
    requires
        axis < 3,
        e < 2,
    ensures
        r == face_edge_axes(axis as nat)[e as int],
        r < 3,
{
    if axis == 0 {
        e + 1
    } else if axis == 1 {
        2 * e
    } else {
        e
    }
}

/// `face_edge_nodes(axis, e, v)`: each child with the neighbour it belongs
/// to.
pub fn faces_to_sub_edges_nodes(axis: usize, e: usize, v: usize) -> (r: [(VertexIndex, AxisValue); 4])
    requires
        axis < 3,
        e < 2,
        v < 2,
    ensures
        r[0].0.repr() == face_edge_nodes(axis as nat, e as nat, v as nat)[0].0,
        r[0].1.value() == face_edge_nodes(axis as nat, e as nat, v as nat)[0].1,
        r[1].0.repr() == face_edge_nodes(axis as nat, e as nat, v as nat)[1].0,
        r[1].1.value() == face_edge_nodes(axis as nat, e as nat, v as nat)[1].1,
        r[2].0.repr() == face_edge_nodes(axis as nat, e as nat, v as nat)[2].0,
        r[2].1.value() == face_edge_nodes(axis as nat, e as nat, v as nat)[2].1,
        r[3].0.repr() == face_edge_nodes(axis as nat, e as nat, v as nat)[3].0,
        r[3].1.value() == face_edge_nodes(axis as nat, e as nat, v as nat)[3].1,
{
    let z = AxisValue::Zero;
    let o = AxisValue::One;
    let r = if axis == 0 {
        if e == 0 {
            if v == 0 {
                [(vertex(1), z), (vertex(0), o), (vertex(5), z), (vertex(4), o)]
            } else {
                [(vertex(3), z), (vertex(2), o), (vertex(7), z), (vertex(6), o)]
            }
        } else {
            if v == 0 {
                [(vertex(0), o), (vertex(1), z), (vertex(2), o), (vertex(3), z)]
            } else {
                [(vertex(4), o), (vertex(5), z), (vertex(6), o), (vertex(7), z)]
            }
        }
    } else if axis == 1 {
        if e == 0 {
            if v == 0 {
                [(vertex(2), z), (vertex(6), z), (vertex(0), o), (vertex(4), o)]
            } else {
                [(vertex(3), z), (vertex(7), z), (vertex(1), o), (vertex(5), o)]
            }
        } else {
            if v == 0 {
                [(vertex(3), z), (vertex(2), z), (vertex(1), o), (vertex(0), o)]
            } else {
                [(vertex(7), z), (vertex(6), z), (vertex(5), o), (vertex(4), o)]
            }
        }
    } else {
        if e == 0 {
            if v == 0 {
                [(vertex(4), z), (vertex(0), o), (vertex(6), z), (vertex(2), o)]
            } else {
                [(vertex(5), z), (vertex(1), o), (vertex(7), z), (vertex(3), o)]
            }
        } else {
            if v == 0 {
                [(vertex(4), z), (vertex(5), z), (vertex(0), o), (vertex(1), o)]
            } else {
                [(vertex(6), z), (vertex(7), z), (vertex(2), o), (vertex(3), o)]
            }
        }
    };
    r
}

/// `subedge_nodes(axis, i)`.
pub fn subedge_nodes_of(axis: usize, i: usize) -> (r: [VertexIndex; 4])
    requires
        axis < 3,
        i < 2,
    ensures
        forall|j: int| 0 <= j < 4 ==> #[trigger] r[j].repr() == subedge_nodes(axis as nat, i as nat)[j],
{
    let r = if axis == 0 {
        if i == 0 {
            [vertex(6), vertex(2), vertex(4), vertex(0)]
        } else {
            [vertex(7), vertex(3), vertex(5), vertex(1)]
        }
    } else if axis == 1 {
        if i == 0 {
            [vertex(5), vertex(4), vertex(1), vertex(0)]
        } else {
            [vertex(7), vertex(6), vertex(3), vertex(2)]
        }
    } else {
        if i == 0 {
            [vertex(2), vertex(3), vertex(0), vertex(1)]
        } else {
            [vertex(6), vertex(7), vertex(4), vertex(5)]
        }
    };
    assert forall|j: int| 0 <= j < 4 implies #[trigger] r[j].repr() == subedge_nodes(
        axis as nat,
        i as nat,
    )[j] by {
        assert(j == 0 || j == 1 || j == 2 || j == 3);
    }
    r
}

/// `edge_node_vertices(axis, m)`.
pub fn edge_nodes_vertices(axis: usize, m: usize) -> (r: (VertexIndex, VertexIndex))
    requires
        axis < 3,
        m < 4,
    ensures
        r.0.repr() == edge_node_vertices(axis as nat, m as nat).0,
        r.1.repr() == edge_node_vertices(axis as nat, m as nat).1,
{
    let m8 = m as u8;
    if axis == 0 {
        let low = 6 - 2 * m8;
        (vertex(low), vertex(low + 1))
    } else if axis == 1 {
        let low = if m8 == 0 {
            5
        } else if m8 == 1 {
            4
        } else if m8 == 2 {
            1
        } else {
            0
        };
        (vertex(low), vertex(low + 2))
    } else {
        let low = if m8 == 0 {
            2
        } else if m8 == 1 {
            3
        } else if m8 == 2 {
            0
        } else {
            1
        };
        (vertex(low), vertex(low + 4))
    }
}

/// The children on either side of an inner face of a node are those on the
/// node's low and high faces across that axis, position by position.
pub proof fn lemma_subnode_face_pairs(axis: nat, k: nat)
    requires
        axis < 3,
        k < 4,
    ensures
        subnode_face_pairs(axis)[k as int].0 == face_subnode(face_of(axis, 0), k),
        subnode_face_pairs(axis)[k as int].1 == face_subnode(face_of(axis, 1), k),
        face_subnode_pairs(axis)[k as int] == (subnode_face_pairs(axis)[k as int].1, subnode_face_pairs(
            axis,
        )[k as int].0),
{
    assert(k == 0 || k == 1 || k == 2 || k == 3);
}

} // verus!

//! Index tables of a cube, right handed like the engine's world:
//! x grows to the right, y grows up, z grows to the front.
//!
//! A vertex (equally, a subnode of an octree node) is numbered `x + 2y + 4z`
//! with each coordinate 0 or 1. A face is numbered `2 * axis + side`, side 0
//! being the low (left, bottom, back) face. An edge is numbered
//! `4 * axis + u + 2v`, where `u` and `v` are the coordinates of the edge on the
//! two other axes, in the order x, y, z.
use vstd::prelude::*;

verus! {

/// Weight of an axis bit in a vertex number: 1 for x, 2 for y, 4 for z.
pub open spec fn axis_weight(axis: nat) -> nat {
    if axis == 0 {
        1
    } else if axis == 1 {
        2
    } else {
        4
    }
}

/// The coordinate (0 or 1) that vertex number `v` has on `axis`.
pub open spec fn vertex_bit(v: nat, axis: nat) -> nat {
    if axis == 0 {
        v % 2
    } else if axis == 1 {
        (v / 2) % 2
    } else {
        (v / 4) % 2
    }
}

/// The first of the two axes other than `axis` (x before y before z).
pub open spec fn first_other_axis(axis: nat) -> nat {
    if axis == 0 {
        1
    } else {
        0
    }
}

/// The second of the two axes other than `axis`.
pub open spec fn second_other_axis(axis: nat) -> nat {
    if axis == 2 {
        1
    } else {
        2
    }
}

/// Side of an axis on which a vertex, edge or face lies: 0 for the low side,
/// 1 for the high side.
#[derive(Debug, Clone, Copy, PartialEq, Eq, Hash, Structural)]
pub enum AxisValue {
    Zero,
    One,
}

impl AxisValue {
    pub open spec fn value(self) -> nat {
        match self {
            AxisValue::Zero => 0,
            AxisValue::One => 1,
        }
    }

    /// The side as a bit.
    pub fn bits(&self) -> (r: u8)
        ensures
            r == self.value(),
    {
        match self {
            AxisValue::Zero => 0,
            AxisValue::One => 1,
        }
    }
}

#[derive(Debug, Clone, Copy, PartialEq, Eq, Hash, Structural)]
pub enum AxisType {
    XAxis,
    YAxis,
    ZAxis,
}

impl AxisType {
    pub open spec fn repr(self) -> nat {
        match self {
            AxisType::XAxis => 0,
            AxisType::YAxis => 1,
            AxisType::ZAxis => 2,
        }
    }

    pub fn to_index(&self) -> (r: usize)
        ensures
            r == self.repr(),
    {
        match self {
            AxisType::XAxis => 0,
            AxisType::YAxis => 1,
            AxisType::ZAxis => 2,
        }
    }

    pub fn from_repr(repr: usize) -> (r: Option<AxisType>)
        ensures
            match r {
                Some(a) => repr < 3 && a.repr() == repr,
                None => repr >= 3,
            },
    {
        match repr {
            0 => Some(AxisType::XAxis),
            1 => Some(AxisType::YAxis),
            2 => Some(AxisType::ZAxis),
            _ => None,
        }
    }
}

/// The vertex number of the vertex with the given sides on the x, y and z axes.
pub fn get_axis_value(x_axis_value: AxisValue, y_axis_value: AxisValue, z_axis_value: AxisValue) -> (r: isize)
    ensures
        r == x_axis_value.value() + 2 * y_axis_value.value() + 4 * z_axis_value.value(),
{
    let x = x_axis_value.bits();
    let y = y_axis_value.bits();
    let z = z_axis_value.bits();
    assert((y << 1u8) == 2 * y && (z << 2u8) == 4 * z) by (bit_vector)
        requires
            y <= 1,
            z <= 1,
    ;
    (x + (y << 1u8) + (z << 2u8)) as isize
}

/// A vertex of a cube; the same numbering names the eight subnodes of an
/// octree node.
#[derive(Debug, Clone, Copy, PartialEq, Eq, Hash, Structural)]
pub enum VertexIndex {
    X0Y0Z0,
    X1Y0Z0,
    X0Y1Z0,
    X1Y1Z0,
    X0Y0Z1,
    X1Y0Z1,
    X0Y1Z1,
    X1Y1Z1,
}

pub type SubNodeIndex = VertexIndex;

/// The vertex whose number is `n` (for `n < 8`).
pub open spec fn vertex_of(n: nat) -> VertexIndex {
    if n == 0 {
        VertexIndex::X0Y0Z0
    } else if n == 1 {
        VertexIndex::X1Y0Z0
    } else if n == 2 {
        VertexIndex::X0Y1Z0
    } else if n == 3 {
        VertexIndex::X1Y1Z0
    } else if n == 4 {
        VertexIndex::X0Y0Z1
    } else if n == 5 {
        VertexIndex::X1Y0Z1
    } else if n == 6 {
        VertexIndex::X0Y1Z1
    } else {
        VertexIndex::X1Y1Z1
    }
}

impl VertexIndex {
    /// The number `x + 2y + 4z` of the vertex.
    pub open spec fn repr(self) -> nat {
        match self {
            VertexIndex::X0Y0Z0 => 0,
            VertexIndex::X1Y0Z0 => 1,
            VertexIndex::X0Y1Z0 => 2,
            VertexIndex::X1Y1Z0 => 3,
            VertexIndex::X0Y0Z1 => 4,
            VertexIndex::X1Y0Z1 => 5,
            VertexIndex::X0Y1Z1 => 6,
            VertexIndex::X1Y1Z1 => 7,
        }
    }

    pub proof fn lemma_repr_bounds(self)
        ensures
            self.repr() < 8,
            vertex_of(self.repr()) == self,
    {
    }

    pub fn to_index(&self) -> (r: usize)
        ensures
            r == self.repr(),
    {
        match self {
            VertexIndex::X0Y0Z0 => 0,
            VertexIndex::X1Y0Z0 => 1,
            VertexIndex::X0Y1Z0 => 2,
            VertexIndex::X1Y1Z0 => 3,
            VertexIndex::X0Y0Z1 => 4,
            VertexIndex::X1Y0Z1 => 5,
            VertexIndex::X0Y1Z1 => 6,
            VertexIndex::X1Y1Z1 => 7,
        }
    }

    /// The x, y and z coordinates of the vertex.
    pub fn to_array(&self) -> (r: [u8; 3])
        ensures
            r@ == seq![
                vertex_bit(self.repr(), 0) as u8,
                vertex_bit(self.repr(), 1) as u8,
                vertex_bit(self.repr(), 2) as u8,
            ],
    {
        let r: [u8; 3] = match self {
            VertexIndex::X0Y0Z0 => [0, 0, 0],
            VertexIndex::X1Y0Z0 => [1, 0, 0],
            VertexIndex::X0Y1Z0 => [0, 1, 0],
            VertexIndex::X1Y1Z0 => [1, 1, 0],
            VertexIndex::X0Y0Z1 => [0, 0, 1],
            VertexIndex::X1Y0Z1 => [1, 0, 1],
            VertexIndex::X0Y1Z1 => [0, 1, 1],
            VertexIndex::X1Y1Z1 => [1, 1, 1],
        };
        assert(r@ =~= seq![
            vertex_bit(self.repr(), 0) as u8,
            vertex_bit(self.repr(), 1) as u8,
            vertex_bit(self.repr(), 2) as u8,
        ]);
        r
    }

    /// The vertex numbered `repr`, if there is one.
    pub fn from_repr(repr: usize) -> (r: Option<VertexIndex>)
        ensures
            match r {
                Some(v) => repr < 8 && v.repr() == repr && v == vertex_of(repr as nat),
                None => repr >= 8,
            },
    {
        match repr {
            0 => Some(VertexIndex::X0Y0Z0),
            1 => Some(VertexIndex::X1Y0Z0),
            2 => Some(VertexIndex::X0Y1Z0),
            3 => Some(VertexIndex::X1Y1Z0),
            4 => Some(VertexIndex::X0Y0Z1),
            5 => Some(VertexIndex::X1Y0Z1),
            6 => Some(VertexIndex::X0Y1Z1),
            7 => Some(VertexIndex::X1Y1Z1),
            _ => None,
        }
    }
}

/// An edge of a cube, named by its direction and its sides on the two other axes.
#[derive(Debug, Clone, Copy, PartialEq, Eq, Hash, Structural)]
pub enum EdgeIndex {
    XAxisY0Z0,
    XAxisY1Z0,
    XAxisY0Z1,
    XAxisY1Z1,
    YAxisX0Z0,
    YAxisX1Z0,
    YAxisX0Z1,
    YAxisX1Z1,
    ZAxisX0Y0,
    ZAxisX1Y0,
    ZAxisX0Y1,
    ZAxisX1Y1,
}

impl EdgeIndex {
    /// The number `4 * axis + u + 2v` of the edge.
    pub open spec fn repr(self) -> nat {
        match self {
            EdgeIndex::XAxisY0Z0 => 0,
            EdgeIndex::XAxisY1Z0 => 1,
            EdgeIndex::XAxisY0Z1 => 2,
            EdgeIndex::XAxisY1Z1 => 3,
            EdgeIndex::YAxisX0Z0 => 4,
            EdgeIndex::YAxisX1Z0 => 5,
            EdgeIndex::YAxisX0Z1 => 6,
            EdgeIndex::YAxisX1Z1 => 7,
            EdgeIndex::ZAxisX0Y0 => 8,
            EdgeIndex::ZAxisX1Y0 => 9,
            EdgeIndex::ZAxisX0Y1 => 10,
            EdgeIndex::ZAxisX1Y1 => 11,
        }
    }

    /// The axis that the edge runs along.
    pub open spec fn axis(self) -> nat {
        self.repr() / 4
    }

    /// The side of the edge on the first other axis.
    pub open spec fn first_side(self) -> nat {
        self.repr() % 2
    }

    /// The side of the edge on the second other axis.
    pub open spec fn second_side(self) -> nat {
        (self.repr() / 2) % 2
    }

    pub fn to_index(&self) -> (r: usize)
        ensures
            r == self.repr(),
    {
        match self {
            EdgeIndex::XAxisY0Z0 => 0,
            EdgeIndex::XAxisY1Z0 => 1,
            EdgeIndex::XAxisY0Z1 => 2,
            EdgeIndex::XAxisY1Z1 => 3,
            EdgeIndex::YAxisX0Z0 => 4,
            EdgeIndex::YAxisX1Z0 => 5,
            EdgeIndex::YAxisX0Z1 => 6,
            EdgeIndex::YAxisX1Z1 => 7,
            EdgeIndex::ZAxisX0Y0 => 8,
            EdgeIndex::ZAxisX1Y0 => 9,
            EdgeIndex::ZAxisX0Y1 => 10,
            EdgeIndex::ZAxisX1Y1 => 11,
        }
    }
}

/// A face of a cube: left/right are the x faces, bottom/top the y faces,
/// back/front the z faces.
#[derive(Debug, Clone, Copy, PartialEq, Eq, Hash, Structural)]
pub enum FaceIndex {
    Left,
    Right,
    Bottom,
    Top,
    Back,
    Front,
}

/// The face on `side` (0 low, 1 high) of `axis`.
pub open spec fn face_of(axis: nat, side: nat) -> FaceIndex {
    if axis == 0 {
        if side == 0 {
            FaceIndex::Left
        } else {
            FaceIndex::Right
        }
    } else if axis == 1 {
        if side == 0 {
            FaceIndex::Bottom
        } else {
            FaceIndex::Top
        }
    } else {
        if side == 0 {
            FaceIndex::Back
        } else {
            FaceIndex::Front
        }
    }
}

impl FaceIndex {
    /// The number `2 * axis + side` of the face.
    pub open spec fn repr(self) -> nat {
        match self {
            FaceIndex::Left => 0,
            FaceIndex::Right => 1,
            FaceIndex::Bottom => 2,
            FaceIndex::Top => 3,
            FaceIndex::Back => 4,
            FaceIndex::Front => 5,
        }
    }

    /// The axis that the face is perpendicular to.
    pub open spec fn axis(self) -> nat {
        self.repr() / 2
    }

    /// 1 for the right, top and front faces, 0 for the others.
    pub open spec fn side(self) -> nat {
        self.repr() % 2
    }

    /// The face on the other side of the same axis.
    pub open spec fn opposite(self) -> FaceIndex {
        face_of(self.axis(), (1 - self.side()) as nat)
    }

    pub fn to_index(&self) -> (r: usize)
        ensures
            r == self.repr(),
    {
        match self {
            FaceIndex::Left => 0,
            FaceIndex::Right => 1,
            FaceIndex::Bottom => 2,
            FaceIndex::Top => 3,
            FaceIndex::Back => 4,
            FaceIndex::Front => 5,
        }
    }

    pub fn from_repr(repr: usize) -> (r: Option<FaceIndex>)
        ensures
            match r {
                Some(f) => repr < 6 && f.repr() == repr,
                None => repr >= 6,
            },
    {
        match repr {
            0 => Some(FaceIndex::Left),
            1 => Some(FaceIndex::Right),
            2 => Some(FaceIndex::Bottom),
            3 => Some(FaceIndex::Top),
            4 => Some(FaceIndex::Back),
            5 => Some(FaceIndex::Front),
            _ => None,
        }
    }
}

/// Number of subnodes of an octree node that touch one face of it.
pub const FACE_SUBNODE_COUNT: usize = 4;

/// Number of subnodes of an octree node that touch one edge of it.
pub const EDGE_SUBNODE_COUNT: usize = 2;

/// The subnode across `face` from subnode `sub`: the subnode with the bit of the
/// face's axis flipped. It lies in the same parent exactly when `sub` is on the
/// side of the axis opposite to the face.
pub open spec fn neighbour_in_table(face: FaceIndex, sub: nat) -> (nat, bool) {
    let w = axis_weight(face.axis());
    let b = vertex_bit(sub, face.axis());
    (if b == 1 { (sub - w) as nat } else { sub + w }, b != face.side())
}

/// For each face and subnode: the neighbouring subnode across that face and
/// whether it has the same parent.
pub fn neighbour_address_table(face: FaceIndex, sub: SubNodeIndex) -> (r: (SubNodeIndex, bool))
    ensures
        r.0.repr() == neighbour_in_table(face, sub.repr()).0,
        r.1 == neighbour_in_table(face, sub.repr()).1,
{
    match face {
        FaceIndex::Left => match sub {
            VertexIndex::X0Y0Z0 => (VertexIndex::X1Y0Z0, false),
            VertexIndex::X1Y0Z0 => (VertexIndex::X0Y0Z0, true),
            VertexIndex::X0Y1Z0 => (VertexIndex::X1Y1Z0, false),
            VertexIndex::X1Y1Z0 => (VertexIndex::X0Y1Z0, true),
            VertexIndex::X0Y0Z1 => (VertexIndex::X1Y0Z1, false),
            VertexIndex::X1Y0Z1 => (VertexIndex::X0Y0Z1, true),
            VertexIndex::X0Y1Z1 => (VertexIndex::X1Y1Z1, false),
            VertexIndex::X1Y1Z1 => (VertexIndex::X0Y1Z1, true),
        },
        FaceIndex::Right => match sub {
            VertexIndex::X0Y0Z0 => (VertexIndex::X1Y0Z0, true),
            VertexIndex::X1Y0Z0 => (VertexIndex::X0Y0Z0, false),
            VertexIndex::X0Y1Z0 => (VertexIndex::X1Y1Z0, true),
            VertexIndex::X1Y1Z0 => (VertexIndex::X0Y1Z0, false),
            VertexIndex::X0Y0Z1 => (VertexIndex::X1Y0Z1, true),
            VertexIndex::X1Y0Z1 => (VertexIndex::X0Y0Z1, false),
            VertexIndex::X0Y1Z1 => (VertexIndex::X1Y1Z1, true),
            VertexIndex::X1Y1Z1 => (VertexIndex::X0Y1Z1, false),
        },
        FaceIndex::Bottom => match sub {
            VertexIndex::X0Y0Z0 => (VertexIndex::X0Y1Z0, false),
            VertexIndex::X1Y0Z0 => (VertexIndex::X1Y1Z0, false),
            VertexIndex::X0Y1Z0 => (VertexIndex::X0Y0Z0, true),
            VertexIndex::X1Y1Z0 => (VertexIndex::X1Y0Z0, true),
            VertexIndex::X0Y0Z1 => (VertexIndex::X0Y1Z1, false),
            VertexIndex::X1Y0Z1 => (VertexIndex::X1Y1Z1, false),
            VertexIndex::X0Y1Z1 => (VertexIndex::X0Y0Z1, true),
            VertexIndex::X1Y1Z1 => (VertexIndex::X1Y0Z1, true),
        },
        FaceIndex::Top => match sub {
            VertexIndex::X0Y0Z0 => (VertexIndex::X0Y1Z0, true),
            VertexIndex::X1Y0Z0 => (VertexIndex::X1Y1Z0, true),
            VertexIndex::X0Y1Z0 => (VertexIndex::X0Y0Z0, false),
            VertexIndex::X1Y1Z0 => (VertexIndex::X1Y0Z0, false),
            VertexIndex::X0Y0Z1 => (VertexIndex::X0Y1Z1, true),
            VertexIndex::X1Y0Z1 => (VertexIndex::X1Y1Z1, true),
            VertexIndex::X0Y1Z1 => (VertexIndex::X0Y0Z1, false),
            VertexIndex::X1Y1Z1 => (VertexIndex::X1Y0Z1, false),
        },
        FaceIndex::Back => match sub {
            VertexIndex::X0Y0Z0 => (VertexIndex::X0Y0Z1, false),
            VertexIndex::X1Y0Z0 => (VertexIndex::X1Y0Z1, false),
            VertexIndex::X0Y1Z0 => (VertexIndex::X0Y1Z1, false),
            VertexIndex::X1Y1Z0 => (VertexIndex::X1Y1Z1, false),
            VertexIndex::X0Y0Z1 => (VertexIndex::X0Y0Z0, true),
            VertexIndex::X1Y0Z1 => (VertexIndex::X1Y0Z0, true),
            VertexIndex::X0Y1Z1 => (VertexIndex::X0Y1Z0, true),
            VertexIndex::X1Y1Z1 => (VertexIndex::X1Y1Z0, true),
        },
        FaceIndex::Front => match sub {
            VertexIndex::X0Y0Z0 => (VertexIndex::X0Y0Z1, true),
            VertexIndex::X1Y0Z0 => (VertexIndex::X1Y0Z1, true),
            VertexIndex::X0Y1Z0 => (VertexIndex::X0Y1Z1, true),
            VertexIndex::X1Y1Z0 => (VertexIndex::X1Y1Z1, true),
            VertexIndex::X0Y0Z1 => (VertexIndex::X0Y0Z0, false),
            VertexIndex::X1Y0Z1 => (VertexIndex::X1Y0Z0, false),
            VertexIndex::X0Y1Z1 => (VertexIndex::X0Y1Z0, false),
            VertexIndex::X1Y1Z1 => (VertexIndex::X1Y1Z0, false),
        },
    }
}

/// The `k`-th (in increasing order) of the four subnodes that touch `face`:
/// the number `k` with the face's side inserted as the bit of the face's axis.
pub open spec fn face_subnode(face: FaceIndex, k: nat) -> nat {
    let s = face.side();
    if face.axis() == 0 {
        2 * k + s
    } else if face.axis() == 1 {
        4 * (k / 2) + 2 * s + k % 2
    } else {
        4 * s + k
    }
}

/// The four subnodes of a node that touch the given face of it, in increasing order.
pub fn subnode_in_face(face: FaceIndex) -> (r: [SubNodeIndex; 4])
    ensures
        forall|k: int| 0 <= k < 4 ==> #[trigger] r[k].repr() == face_subnode(face, k as nat),
{
    match face {
        FaceIndex::Left => [VertexIndex::X0Y0Z0, VertexIndex::X0Y1Z0, VertexIndex::X0Y0Z1, VertexIndex::X0Y1Z1],
        FaceIndex::Right => [VertexIndex::X1Y0Z0, VertexIndex::X1Y1Z0, VertexIndex::X1Y0Z1, VertexIndex::X1Y1Z1],
        FaceIndex::Bottom => [VertexIndex::X0Y0Z0, VertexIndex::X1Y0Z0, VertexIndex::X0Y0Z1, VertexIndex::X1Y0Z1],
        FaceIndex::Top => [VertexIndex::X0Y1Z0, VertexIndex::X1Y1Z0, VertexIndex::X0Y1Z1, VertexIndex::X1Y1Z1],
        FaceIndex::Back => [VertexIndex::X0Y0Z0, VertexIndex::X1Y0Z0, VertexIndex::X0Y1Z0, VertexIndex::X1Y1Z0],
        FaceIndex::Front => [VertexIndex::X0Y0Z1, VertexIndex::X1Y0Z1, VertexIndex::X0Y1Z1, VertexIndex::X1Y1Z1],
    }
}

/// The lower end of an edge: the vertex with the edge's sides on the two other
/// axes and 0 on the edge's axis.
pub open spec fn edge_low_vertex(edge: EdgeIndex) -> nat {
    edge.first_side() * axis_weight(first_other_axis(edge.axis())) + edge.second_side()
        * axis_weight(second_other_axis(edge.axis()))
}

/// The two ends of an edge, lower first. The two subnodes of a node that touch
/// an edge of it sit at the same two positions.
pub fn edge_vertex_pairs(edge: EdgeIndex) -> (r: [VertexIndex; 2])
    ensures
        r[0].repr() == edge_low_vertex(edge),
        r[1].repr() == edge_low_vertex(edge) + axis_weight(edge.axis()),
{
    match edge {
        EdgeIndex::XAxisY0Z0 => [VertexIndex::X0Y0Z0, VertexIndex::X1Y0Z0],
        EdgeIndex::XAxisY1Z0 => [VertexIndex::X0Y1Z0, VertexIndex::X1Y1Z0],
        EdgeIndex::XAxisY0Z1 => [VertexIndex::X0Y0Z1, VertexIndex::X1Y0Z1],
        EdgeIndex::XAxisY1Z1 => [VertexIndex::X0Y1Z1, VertexIndex::X1Y1Z1],
        EdgeIndex::YAxisX0Z0 => [VertexIndex::X0Y0Z0, VertexIndex::X0Y1Z0],
        EdgeIndex::YAxisX1Z0 => [VertexIndex::X1Y0Z0, VertexIndex::X1Y1Z0],
        EdgeIndex::YAxisX0Z1 => [VertexIndex::X0Y0Z1, VertexIndex::X0Y1Z1],
        EdgeIndex::YAxisX1Z1 => [VertexIndex::X1Y0Z1, VertexIndex::X1Y1Z1],
        EdgeIndex::ZAxisX0Y0 => [VertexIndex::X0Y0Z0, VertexIndex::X0Y0Z1],
        EdgeIndex::ZAxisX1Y0 => [VertexIndex::X1Y0Z0, VertexIndex::X1Y0Z1],
        EdgeIndex::ZAxisX0Y1 => [VertexIndex::X0Y1Z0, VertexIndex::X0Y1Z1],
        EdgeIndex::ZAxisX1Y1 => [VertexIndex::X1Y1Z0, VertexIndex::X1Y1Z1],
    }
}

/// The two faces to cross, one after the other, to reach the node that shares
/// only the given edge with a node: the face on the edge's side of its first
/// other axis, then the one on its side of the second other axis.
pub fn neighbor_node_in_edge(edge: EdgeIndex) -> (r: [FaceIndex; 2])
    ensures
        r[0] == face_of(first_other_axis(edge.axis()), edge.first_side()),
        r[1] == face_of(second_other_axis(edge.axis()), edge.second_side()),
{
    match edge {
        EdgeIndex::XAxisY0Z0 => [FaceIndex::Bottom, FaceIndex::Back],
        EdgeIndex::XAxisY1Z0 => [FaceIndex::Top, FaceIndex::Back],
        EdgeIndex::XAxisY0Z1 => [FaceIndex::Bottom, FaceIndex::Front],
        EdgeIndex::XAxisY1Z1 => [FaceIndex::Top, FaceIndex::Front],
        EdgeIndex::YAxisX0Z0 => [FaceIndex::Left, FaceIndex::Back],
        EdgeIndex::YAxisX1Z0 => [FaceIndex::Right, FaceIndex::Back],
        EdgeIndex::YAxisX0Z1 => [FaceIndex::Left, FaceIndex::Front],
        EdgeIndex::YAxisX1Z1 => [FaceIndex::Right, FaceIndex::Front],
        EdgeIndex::ZAxisX0Y0 => [FaceIndex::Left, FaceIndex::Bottom],
        EdgeIndex::ZAxisX1Y0 => [FaceIndex::Right, FaceIndex::Bottom],
        EdgeIndex::ZAxisX0Y1 => [FaceIndex::Left, FaceIndex::Top],
        EdgeIndex::ZAxisX1Y1 => [FaceIndex::Right, FaceIndex::Top],
    }
}

/// The three faces to cross, one after the other, to reach the node that
/// shares only the given vertex with a node: its x face, then y, then z.
pub fn neighbor_node_in_vertex(vertex: VertexIndex) -> (r: [FaceIndex; 3])
    ensures
        r[0] == face_of(0, vertex_bit(vertex.repr(), 0)),
        r[1] == face_of(1, vertex_bit(vertex.repr(), 1)),
        r[2] == face_of(2, vertex_bit(vertex.repr(), 2)),
{
    match vertex {
        VertexIndex::X0Y0Z0 => [FaceIndex::Left, FaceIndex::Bottom, FaceIndex::Back],
        VertexIndex::X1Y0Z0 => [FaceIndex::Right, FaceIndex::Bottom, FaceIndex::Back],
        VertexIndex::X0Y1Z0 => [FaceIndex::Left, FaceIndex::Top, FaceIndex::Back],
        VertexIndex::X1Y1Z0 => [FaceIndex::Right, FaceIndex::Top, FaceIndex::Back],
        VertexIndex::X0Y0Z1 => [FaceIndex::Left, FaceIndex::Bottom, FaceIndex::Front],
        VertexIndex::X1Y0Z1 => [FaceIndex::Right, FaceIndex::Bottom, FaceIndex::Front],
        VertexIndex::X0Y1Z1 => [FaceIndex::Left, FaceIndex::Top, FaceIndex::Front],
        VertexIndex::X1Y1Z1 => [FaceIndex::Right, FaceIndex::Top, FaceIndex::Front],
    }
}


/// The face across the cell from `face`: where a neighbour across `face`
/// touches the cell.
pub fn twin_face_index(face: FaceIndex) -> (r: FaceIndex)
    ensures
        r == face.opposite(),
{
    match face {
        FaceIndex::Left => FaceIndex::Right,
        FaceIndex::Right => FaceIndex::Left,
        FaceIndex::Bottom => FaceIndex::Top,
        FaceIndex::Top => FaceIndex::Bottom,
        FaceIndex::Back => FaceIndex::Front,
        FaceIndex::Front => FaceIndex::Back,
    }
}

impl EdgeIndex {
    /// The edge along the same axis on the other side in both other axes.
    pub open spec fn twin(self) -> EdgeIndex {
        match self {
            EdgeIndex::XAxisY0Z0 => EdgeIndex::XAxisY1Z1,
            EdgeIndex::XAxisY1Z0 => EdgeIndex::XAxisY0Z1,
            EdgeIndex::XAxisY0Z1 => EdgeIndex::XAxisY1Z0,
            EdgeIndex::XAxisY1Z1 => EdgeIndex::XAxisY0Z0,
            EdgeIndex::YAxisX0Z0 => EdgeIndex::YAxisX1Z1,
            EdgeIndex::YAxisX1Z0 => EdgeIndex::YAxisX0Z1,
            EdgeIndex::YAxisX0Z1 => EdgeIndex::YAxisX1Z0,
            EdgeIndex::YAxisX1Z1 => EdgeIndex::YAxisX0Z0,
            EdgeIndex::ZAxisX0Y0 => EdgeIndex::ZAxisX1Y1,
            EdgeIndex::ZAxisX1Y0 => EdgeIndex::ZAxisX0Y1,
            EdgeIndex::ZAxisX0Y1 => EdgeIndex::ZAxisX1Y0,
            EdgeIndex::ZAxisX1Y1 => EdgeIndex::ZAxisX0Y0,
        }
    }
}

/// The edge across the cell from `edge`: where a neighbour across `edge`
/// touches the cell.
pub fn twin_edge_index(edge: EdgeIndex) -> (r: EdgeIndex)
    ensures
        r == edge.twin(),
        r.axis() == edge.axis(),
        r.first_side() == 1 - edge.first_side(),
        r.second_side() == 1 - edge.second_side(),
{
    match edge {
        EdgeIndex::XAxisY0Z0 => EdgeIndex::XAxisY1Z1,
        EdgeIndex::XAxisY1Z0 => EdgeIndex::XAxisY0Z1,
        EdgeIndex::XAxisY0Z1 => EdgeIndex::XAxisY1Z0,
        EdgeIndex::XAxisY1Z1 => EdgeIndex::XAxisY0Z0,
        EdgeIndex::YAxisX0Z0 => EdgeIndex::YAxisX1Z1,
        EdgeIndex::YAxisX1Z0 => EdgeIndex::YAxisX0Z1,
        EdgeIndex::YAxisX0Z1 => EdgeIndex::YAxisX1Z0,
        EdgeIndex::YAxisX1Z1 => EdgeIndex::YAxisX0Z0,
        EdgeIndex::ZAxisX0Y0 => EdgeIndex::ZAxisX1Y1,
        EdgeIndex::ZAxisX1Y0 => EdgeIndex::ZAxisX0Y1,
        EdgeIndex::ZAxisX0Y1 => EdgeIndex::ZAxisX1Y0,
        EdgeIndex::ZAxisX1Y1 => EdgeIndex::ZAxisX0Y0,
    }
}

/// The vertex across the cell from `vertex`: where a neighbour across
/// `vertex` touches the cell.
pub fn twin_vertex_index(vertex: VertexIndex) -> (r: VertexIndex)
    ensures
        r.repr() == 7 - vertex.repr(),
        r == vertex_of((7 - vertex.repr()) as nat),
{
    match vertex {
        VertexIndex::X0Y0Z0 => VertexIndex::X1Y1Z1,
        VertexIndex::X1Y0Z0 => VertexIndex::X0Y1Z1,
        VertexIndex::X0Y1Z0 => VertexIndex::X1Y0Z1,
        VertexIndex::X1Y1Z0 => VertexIndex::X0Y0Z1,
        VertexIndex::X0Y0Z1 => VertexIndex::X1Y1Z0,
        VertexIndex::X1Y0Z1 => VertexIndex::X0Y1Z0,
        VertexIndex::X0Y1Z1 => VertexIndex::X1Y0Z0,
        VertexIndex::X1Y1Z1 => VertexIndex::X0Y0Z0,
    }
}

} // verus!

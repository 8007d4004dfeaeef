//! Neighbours and children of LOD octree cells, by Morton code.
use vstd::prelude::*;
use vstd::arithmetic::power2::{pow2, lemma2_to64};
use vstd::bits::lemma_u32_shl_is_mul;
use crate::address::{face_step, lemma_coords_determine_path};
use crate::morton_code::MortonCode;
use crate::math::UVec3;
use crate::tables::{
    FaceIndex, EdgeIndex, VertexIndex, face_of, first_other_axis, second_other_axis, vertex_bit,
    face_subnode, edge_low_vertex, axis_weight, neighbor_node_in_edge, neighbor_node_in_vertex,
    subnode_in_face, edge_vertex_pairs,
};

verus! {

/// Why a neighbour cell does not exist.
#[derive(Debug, Clone, Copy, PartialEq, Eq, Structural)]
pub enum MortonCodeError {
    /// The neighbour would lie outside the grid of its level.
    CellIndexOutOfRange,
}

/// Whether `v` is a coordinate of the grid at `level` (`0 <= v < 2^level`).
pub open spec fn in_grid(level: nat, v: int) -> bool {
    0 <= v < pow2(level)
}

/// A neighbour search aimed at the coordinates `(tx, ty, tz)` from cell `c`
/// succeeds exactly when they lie in the grid of `c`'s level, and then finds the
/// cell at those coordinates on that level.
pub open spec fn neighbor_result_ok(
    c: MortonCode,
    tx: int,
    ty: int,
    tz: int,
    r: Result<MortonCode, MortonCodeError>,
) -> bool {
    &&& (r is Ok <==> (in_grid(c.level_spec(), tx) && in_grid(c.level_spec(), ty) && in_grid(
        c.level_spec(),
        tz,
    )))
    &&& (r matches Ok(n) ==> n.wf() && n.level_spec() == c.level_spec() && n.coord(0) == tx
        && n.coord(1) == ty && n.coord(2) == tz)
    &&& (r matches Err(e) ==> e == MortonCodeError::CellIndexOutOfRange)
}

/// The coordinate on `axis` after crossing `face`, as `u32` wrapping arithmetic
/// computes it.
pub open spec fn grid_step(v: u32, face: FaceIndex, axis: nat) -> u32 {
    if axis == face.axis() {
        if face.side() == 1 {
            vstd::wrapping::u32_specs::wrapping_add(v, 1)
        } else {
            vstd::wrapping::u32_specs::wrapping_sub(v, 1)
        }
    } else {
        v
    }
}

/// The first face that the edge neighbour search crosses.
pub open spec fn edge_face_0(edge: EdgeIndex) -> FaceIndex {
    face_of(first_other_axis(edge.axis()), edge.first_side())
}

/// The second face that the edge neighbour search crosses.
pub open spec fn edge_face_1(edge: EdgeIndex) -> FaceIndex {
    face_of(second_other_axis(edge.axis()), edge.second_side())
}

/// The face on `axis` that the vertex neighbour search crosses.
pub open spec fn vertex_face(vertex: VertexIndex, axis: nat) -> FaceIndex {
    face_of(axis, vertex_bit(vertex.repr(), axis))
}

proof fn lemma_face_of(axis: nat, side: nat)
    requires
        axis < 3,
        side < 2,
    ensures
        face_of(axis, side).axis() == axis,
        face_of(axis, side).side() == side,
{
}

/// Steps from a cell in the grid of `level` across `face`, or `None` when that
/// leaves the grid.
fn step_in_grid(current: UVec3, face_index: FaceIndex, level: u8) -> (r: Option<UVec3>)
    requires
        level <= 21,
        current.x < pow2(level as nat),
        current.y < pow2(level as nat),
        current.z < pow2(level as nat),
    ensures
        r is Some <==> (forall|axis: nat|
            axis < 3 ==> #[trigger] in_grid(
                level as nat,
                current.axis_value(axis) + face_step(face_index, axis),
            )),
        r is None <==> !in_grid(
            level as nat,
            current.axis_value(face_index.axis()) + face_step(face_index, face_index.axis()),
        ),
        r matches Some(n) ==> forall|axis: nat|
            axis < 3 ==> #[trigger] n.axis_value(axis) == current.axis_value(axis) + face_step(
                face_index,
                axis,
            ),
{
    let neighbor_xyz = MortonCode::get_neighbor_face_grid_index(current, face_index);
    proof {
        lemma2_to64();
        vstd::bits::lemma_u32_pow2_no_overflow(level as nat);
        lemma_u32_shl_is_mul(1, level as u32);
        vstd::arithmetic::power2::lemma_pow2_strictly_increases(level as nat, 32);
        assert(face_index.axis() < 3);
    }
    let bound = 1u32 << (level as u32);
    if neighbor_xyz.x == u32::MAX || neighbor_xyz.x >= bound || neighbor_xyz.y == u32::MAX
        || neighbor_xyz.y >= bound || neighbor_xyz.z == u32::MAX || neighbor_xyz.z >= bound {
        proof {
            let ax = face_index.axis();
            assert(!in_grid(level as nat, current.axis_value(ax) + face_step(face_index, ax)));
        }
        return None;
    }
    proof {
        assert forall|axis: nat| axis < 3 implies #[trigger] in_grid(
            level as nat,
            current.axis_value(axis) + face_step(face_index, axis),
        ) && neighbor_xyz.axis_value(axis) == current.axis_value(axis) + face_step(
            face_index,
            axis,
        ) by {
            assert(axis == 0 || axis == 1 || axis == 2);
        }
    }
    Some(neighbor_xyz)
}

impl MortonCode {
    /// The grid coordinates across `face_index`, in `u32` wrapping arithmetic
    /// (so one step left of 0 is `u32::MAX`).
    pub fn get_neighbor_face_grid_index(current_xyz: UVec3, face_index: FaceIndex) -> (r: UVec3)
        ensures
            r.x == grid_step(current_xyz.x, face_index, 0),
            r.y == grid_step(current_xyz.y, face_index, 1),
            r.z == grid_step(current_xyz.z, face_index, 2),
    {
        match face_index {
            FaceIndex::Left => UVec3::new(
                current_xyz.x.wrapping_sub(1),
                current_xyz.y,
                current_xyz.z,
            ),
            FaceIndex::Right => UVec3::new(
                current_xyz.x.wrapping_add(1),
                current_xyz.y,
                current_xyz.z,
            ),
            FaceIndex::Bottom => UVec3::new(
                current_xyz.x,
                current_xyz.y.wrapping_sub(1),
                current_xyz.z,
            ),
            FaceIndex::Top => UVec3::new(
                current_xyz.x,
                current_xyz.y.wrapping_add(1),
                current_xyz.z,
            ),
            FaceIndex::Back => UVec3::new(
                current_xyz.x,
                current_xyz.y,
                current_xyz.z.wrapping_sub(1),
            ),
            FaceIndex::Front => UVec3::new(
                current_xyz.x,
                current_xyz.y,
                current_xyz.z.wrapping_add(1),
            ),
        }
    }

    /// The cell on the same level across `face_index`.
    pub fn get_neighbor_face_morton_code(&self, face_index: FaceIndex) -> (r: Result<MortonCode, MortonCodeError>)
        ensures
            neighbor_result_ok(
                *self,
                self.coord(0) + face_step(face_index, 0),
                self.coord(1) + face_step(face_index, 1),
                self.coord(2) + face_step(face_index, 2),
                r,
            ),
    {
        let current_xyz = self.decode();
        let level = self.level();
        match step_in_grid(current_xyz, face_index, level) {
            Some(neighbor_xyz) => {
                assert(neighbor_xyz.axis_value(0) == current_xyz.axis_value(0) + face_step(face_index, 0));
                assert(neighbor_xyz.axis_value(1) == current_xyz.axis_value(1) + face_step(face_index, 1));
                assert(neighbor_xyz.axis_value(2) == current_xyz.axis_value(2) + face_step(face_index, 2));
                assert(in_grid(level as nat, current_xyz.axis_value(0) + face_step(face_index, 0)));
                assert(in_grid(level as nat, current_xyz.axis_value(1) + face_step(face_index, 1)));
                assert(in_grid(level as nat, current_xyz.axis_value(2) + face_step(face_index, 2)));
                Ok(MortonCode::encode(neighbor_xyz, level))
            },
            None => {
                proof {
                    assert(in_grid(level as nat, self.coord(0) + face_step(face_index, 0)) ==> in_grid(level as nat, current_xyz.axis_value(0) + face_step(face_index, 0)));
                }
                Err(MortonCodeError::CellIndexOutOfRange)
            },
        }
    }
}

impl MortonCode {
    /// The cell on the same level across `edge_index`: across the edge's face
    /// on its first other axis, then across its face on the second; an error as
    /// soon as a step leaves the grid.
    pub fn get_neighbor_edge_morton_code(&self, edge_index: EdgeIndex) -> (r: Result<MortonCode, MortonCodeError>)
        ensures
            neighbor_result_ok(
                *self,
                self.coord(0) + face_step(edge_face_0(edge_index), 0) + face_step(edge_face_1(edge_index), 0),
                self.coord(1) + face_step(edge_face_0(edge_index), 1) + face_step(edge_face_1(edge_index), 1),
                self.coord(2) + face_step(edge_face_0(edge_index), 2) + face_step(edge_face_1(edge_index), 2),
                r,
            ),
    {
        let mut current_xyz = self.decode();
        let level = self.level();
        let faces = neighbor_node_in_edge(edge_index);
        let ghost f0 = edge_face_0(edge_index);
        let ghost f1 = edge_face_1(edge_index);
        proof {
            lemma_face_of(first_other_axis(edge_index.axis()), edge_index.first_side());
            lemma_face_of(second_other_axis(edge_index.axis()), edge_index.second_side());
            assert(f0.axis() != f1.axis());
            assert(f0.axis() < 3 && f1.axis() < 3);
        }
        let ghost start = current_xyz;
        match step_in_grid(current_xyz, faces[0], level) {
            Some(n) => {
                current_xyz = n;
            },
            None => {
                proof {
                    assert(face_step(f1, f0.axis()) == 0);
                }
                return Err(MortonCodeError::CellIndexOutOfRange);
            },
        }
        let ghost middle = current_xyz;
        proof {
            assert(middle.axis_value(0) == start.axis_value(0) + face_step(f0, 0));
            assert(middle.axis_value(1) == start.axis_value(1) + face_step(f0, 1));
            assert(middle.axis_value(2) == start.axis_value(2) + face_step(f0, 2));
            assert(in_grid(level as nat, start.axis_value(0) + face_step(f0, 0)));
            assert(in_grid(level as nat, start.axis_value(1) + face_step(f0, 1)));
            assert(in_grid(level as nat, start.axis_value(2) + face_step(f0, 2)));
        }
        match step_in_grid(current_xyz, faces[1], level) {
            Some(n) => {
                current_xyz = n;
            },
            None => {
                return Err(MortonCodeError::CellIndexOutOfRange);
            },
        }
        proof {
            assert(current_xyz.axis_value(0) == middle.axis_value(0) + face_step(f1, 0));
            assert(current_xyz.axis_value(1) == middle.axis_value(1) + face_step(f1, 1));
            assert(current_xyz.axis_value(2) == middle.axis_value(2) + face_step(f1, 2));
            assert(in_grid(level as nat, middle.axis_value(0) + face_step(f1, 0)));
            assert(in_grid(level as nat, middle.axis_value(1) + face_step(f1, 1)));
            assert(in_grid(level as nat, middle.axis_value(2) + face_step(f1, 2)));
        }
        Ok(MortonCode::encode(current_xyz, level))
    }

    /// The cell on the same level across `vertex_index`: across the vertex's
    /// x face, then its y face, then its z face; an error as soon as a step
    /// leaves the grid.
    pub fn get_neighbor_vertex_morton_code(&self, vertex_index: VertexIndex) -> (r: Result<MortonCode, MortonCodeError>)
        ensures
            neighbor_result_ok(
                *self,
                self.coord(0) + face_step(vertex_face(vertex_index, 0), 0),
                self.coord(1) + face_step(vertex_face(vertex_index, 1), 1),
                self.coord(2) + face_step(vertex_face(vertex_index, 2), 2),
                r,
            ),
    {
        let mut current_xyz = self.decode();
        let level = self.level();
        let faces = neighbor_node_in_vertex(vertex_index);
        let ghost f0 = vertex_face(vertex_index, 0);
        let ghost f1 = vertex_face(vertex_index, 1);
        let ghost f2 = vertex_face(vertex_index, 2);
        proof {
            vertex_index.lemma_repr_bounds();
            lemma_face_of(0, vertex_bit(vertex_index.repr(), 0));
            lemma_face_of(1, vertex_bit(vertex_index.repr(), 1));
            lemma_face_of(2, vertex_bit(vertex_index.repr(), 2));
        }
        let ghost c0 = current_xyz;
        match step_in_grid(current_xyz, faces[0], level) {
            Some(n) => {
                current_xyz = n;
            },
            None => {
                return Err(MortonCodeError::CellIndexOutOfRange);
            },
        }
        let ghost c1 = current_xyz;
        proof {
            assert(c1.axis_value(0) == c0.axis_value(0) + face_step(f0, 0));
            assert(c1.axis_value(1) == c0.axis_value(1) + face_step(f0, 1));
            assert(c1.axis_value(2) == c0.axis_value(2) + face_step(f0, 2));
            assert(in_grid(level as nat, c0.axis_value(0) + face_step(f0, 0)));
            assert(in_grid(level as nat, c0.axis_value(1) + face_step(f0, 1)));
            assert(in_grid(level as nat, c0.axis_value(2) + face_step(f0, 2)));
        }
        match step_in_grid(current_xyz, faces[1], level) {
            Some(n) => {
                current_xyz = n;
            },
            None => {
                return Err(MortonCodeError::CellIndexOutOfRange);
            },
        }
        let ghost c2 = current_xyz;
        proof {
            assert(c2.axis_value(0) == c1.axis_value(0) + face_step(f1, 0));
            assert(c2.axis_value(1) == c1.axis_value(1) + face_step(f1, 1));
            assert(c2.axis_value(2) == c1.axis_value(2) + face_step(f1, 2));
            assert(in_grid(level as nat, c1.axis_value(0) + face_step(f1, 0)));
            assert(in_grid(level as nat, c1.axis_value(1) + face_step(f1, 1)));
            assert(in_grid(level as nat, c1.axis_value(2) + face_step(f1, 2)));
        }
        match step_in_grid(current_xyz, faces[2], level) {
            Some(n) => {
                current_xyz = n;
            },
            None => {
                return Err(MortonCodeError::CellIndexOutOfRange);
            },
        }
        proof {
            assert(current_xyz.axis_value(0) == c2.axis_value(0) + face_step(f2, 0));
            assert(current_xyz.axis_value(1) == c2.axis_value(1) + face_step(f2, 1));
            assert(current_xyz.axis_value(2) == c2.axis_value(2) + face_step(f2, 2));
            assert(in_grid(level as nat, c2.axis_value(0) + face_step(f2, 0)));
            assert(in_grid(level as nat, c2.axis_value(1) + face_step(f2, 1)));
            assert(in_grid(level as nat, c2.axis_value(2) + face_step(f2, 2)));
        }
        Ok(MortonCode::encode(current_xyz, level))
    }
}

impl MortonCode {
    /// The four children that touch `face_index`, in the order of
    /// `subnode_in_face`; none at the deepest level.
    pub fn get_children_morton_code_by_face(&self, face_index: FaceIndex) -> (r: Vec<MortonCode>)
        ensures
            self.level_spec() == 21 ==> r.len() == 0,
            self.level_spec() < 21 ==> r.len() == 4,
            forall|k: int|
                0 <= k < r.len() ==> #[trigger] is_child_code(*self, r[k], face_subnode(face_index, k as nat)),
    {
        let mut children: Vec<MortonCode> = Vec::new();
        let subnodes = subnode_in_face(face_index);
        let level = self.level();
        let mut i: usize = 0;
        while i < 4
            invariant
                i <= 4,
                level == self.level_spec(),
                self.level_spec() <= 21,
                forall|k: int| 0 <= k < 4 ==> #[trigger] subnodes[k].repr() == face_subnode(face_index, k as nat),
                self.level_spec() == 21 ==> children.len() == 0,
                self.level_spec() < 21 ==> children.len() == i,
                forall|k: int|
                    0 <= k < children.len() ==> #[trigger] is_child_code(*self, children[k], face_subnode(face_index, k as nat)),
            decreases 4 - i,
        {
            assert(subnodes[i as int].repr() == face_subnode(face_index, i as nat));
            if let Some(child) = self.child(subnodes[i]) {
                children.push(child);
            }
            i = i + 1;
        }
        children
    }

    /// The two children that touch `edge_index`, lower first; none at the
    /// deepest level.
    pub fn get_children_morton_code_by_edge(&self, edge_index: EdgeIndex) -> (r: Vec<MortonCode>)
        ensures
            self.level_spec() == 21 ==> r.len() == 0,
            self.level_spec() < 21 ==> r.len() == 2,
            forall|k: int|
                0 <= k < r.len() ==> #[trigger] is_child_code(*self, r[k], edge_child_digit(edge_index, k)),
    {
        let mut children: Vec<MortonCode> = Vec::new();
        let subnodes = edge_vertex_pairs(edge_index);
        let level = self.level();
        let mut i: usize = 0;
        while i < 2
            invariant
                i <= 2,
                level == self.level_spec(),
                self.level_spec() <= 21,
                subnodes[0].repr() == edge_low_vertex(edge_index),
                subnodes[1].repr() == edge_low_vertex(edge_index) + axis_weight(edge_index.axis()),
                self.level_spec() == 21 ==> children.len() == 0,
                self.level_spec() < 21 ==> children.len() == i,
                forall|k: int|
                    0 <= k < children.len() ==> #[trigger] is_child_code(*self, children[k], edge_child_digit(edge_index, k)),
            decreases 2 - i,
        {
            if let Some(child) = self.child(subnodes[i]) {
                children.push(child);
            }
            i = i + 1;
        }
        children
    }

    /// The child that touches `vertex_index`; none at the deepest level.
    pub fn get_children_morton_code_by_vertex(&self, vertex_index: VertexIndex) -> (r: Vec<MortonCode>)
        ensures
            self.level_spec() == 21 ==> r.len() == 0,
            self.level_spec() < 21 ==> r.len() == 1,
            forall|k: int|
                0 <= k < r.len() ==> #[trigger] is_child_code(*self, r[k], vertex_index.repr()),
    {
        let mut children: Vec<MortonCode> = Vec::new();
        let level = self.level();
        if let Some(child) = self.child(vertex_index) {
            children.push(child);
        }
        children
    }
}

/// The digit of the `k`-th child that touches an edge (lower first).
pub open spec fn edge_child_digit(edge: EdgeIndex, k: int) -> nat {
    if k == 0 {
        edge_low_vertex(edge)
    } else {
        edge_low_vertex(edge) + axis_weight(edge.axis())
    }
}

/// `child` is the child of `parent` at digit `digit`.
pub open spec fn is_child_code(parent: MortonCode, child: MortonCode, digit: nat) -> bool {
    &&& child.wf()
    &&& child.level_spec() == parent.level_spec() + 1
    &&& child.code_spec() == parent.code_spec() * 8 + digit
}

/// The step across the opposite face undoes the step across a face.
pub proof fn lemma_face_step_opposite(face: FaceIndex, axis: nat)
    ensures
        face_step(face.opposite(), axis) == -face_step(face, axis),
{
}

/// Crossing a face of a cell and then the opposite face of the neighbour found
/// returns to the cell.
pub proof fn lemma_neighbor_face_twin(
    c: MortonCode,
    face: FaceIndex,
    n: MortonCode,
    back: Result<MortonCode, MortonCodeError>,
)
    requires
        c.wf(),
        neighbor_result_ok(
            c,
            c.coord(0) + face_step(face, 0),
            c.coord(1) + face_step(face, 1),
            c.coord(2) + face_step(face, 2),
            Ok(n),
        ),
        neighbor_result_ok(
            n,
            n.coord(0) + face_step(face.opposite(), 0),
            n.coord(1) + face_step(face.opposite(), 1),
            n.coord(2) + face_step(face.opposite(), 2),
            back,
        ),
    ensures
        back == Ok::<MortonCode, MortonCodeError>(c),
{
    crate::address::lemma_path_coord_bound(c.code_spec(), c.level_spec(), 0);
    crate::address::lemma_path_coord_bound(c.code_spec(), c.level_spec(), 1);
    crate::address::lemma_path_coord_bound(c.code_spec(), c.level_spec(), 2);
    lemma_face_step_opposite(face, 0);
    lemma_face_step_opposite(face, 1);
    lemma_face_step_opposite(face, 2);
    let m = back.unwrap();
    assert forall|axis: nat| axis < 3 implies #[trigger] crate::address::path_coord(
        m.code_spec(),
        m.level_spec(),
        axis,
    ) == crate::address::path_coord(c.code_spec(), c.level_spec(), axis) by {
        assert(axis == 0 || axis == 1 || axis == 2);
    }
    lemma_coords_determine_path(m.code_spec(), c.code_spec(), c.level_spec());
    m.lemma_view_eq(c);
}

/// The parent of a child of a cell is the cell.
pub proof fn lemma_parent_of_child(c: MortonCode, sub: VertexIndex, child: MortonCode, parent: MortonCode)
    requires
        child.code_spec() == c.code_spec() * 8 + sub.repr(),
        child.level_spec() == c.level_spec() + 1,
        parent.code_spec() == child.code_spec() / 8,
        parent.level_spec() == child.level_spec() - 1,
    ensures
        parent == c,
{
    sub.lemma_repr_bounds();
    parent.lemma_view_eq(c);
}

/// Encoding the decoded coordinates of a cell gives back its code.
pub proof fn lemma_encode_decode(c: MortonCode)
    requires
        c.wf(),
    ensures
        crate::morton_code::interleave(c.coord(0), c.coord(1), c.coord(2), c.level_spec())
            == c.code_spec(),
{
    crate::address::lemma_path_coord_bound(c.code_spec(), c.level_spec(), 0);
    crate::address::lemma_path_coord_bound(c.code_spec(), c.level_spec(), 1);
    crate::address::lemma_path_coord_bound(c.code_spec(), c.level_spec(), 2);
    let i = crate::morton_code::interleave(c.coord(0), c.coord(1), c.coord(2), c.level_spec());
    crate::morton_code::lemma_interleave_coords(c.coord(0), c.coord(1), c.coord(2), c.level_spec());
    assert forall|axis: nat| axis < 3 implies #[trigger] crate::address::path_coord(
        i,
        c.level_spec(),
        axis,
    ) == crate::address::path_coord(c.code_spec(), c.level_spec(), axis) by {
        assert(axis == 0 || axis == 1 || axis == 2);
    }
    lemma_coords_determine_path(i, c.code_spec(), c.level_spec());
}


/// A child of a cell that touches `face` lies on that face, one level down:
/// its coordinate on the face's axis is twice the cell's plus the face's side.
proof fn lemma_face_child(m: MortonCode, c: MortonCode, face: FaceIndex, k: nat)
    requires
        k < 4,
        is_child_code(m, c, face_subnode(face, k)),
    ensures
        face_subnode(face, k) < 8,
        c.parent_spec() == m,
        c.coord(face.axis()) == 2 * m.coord(face.axis()) + face.side(),
{
    let d = face_subnode(face, k);
    assert(d < 8 && vertex_bit(d, face.axis()) == face.side()) by {
        assert(k == 0 || k == 1 || k == 2 || k == 3);
    }
    c.lemma_parent_spec();
    assert(c.code_spec() / 8 == m.code_spec());
    c.parent_spec().lemma_view_eq(m);
    crate::address::lemma_path_coord_append(m.code_spec(), d, c.level_spec(), face.axis());
}

/// The children that touch a face of the children that touch that face of a
/// cell lie two levels down inside the cell, on that face: the parent of
/// their parent is the cell, and their coordinate on the face's axis is four
/// times the cell's, plus 3 on the high side.
pub proof fn lemma_face_children_of_face_children(
    m: MortonCode,
    c: MortonCode,
    g: MortonCode,
    face: FaceIndex,
    k: nat,
    j: nat,
)
    requires
        k < 4,
        j < 4,
        is_child_code(m, c, face_subnode(face, k)),
        is_child_code(c, g, face_subnode(face, j)),
    ensures
        g.level_spec() == m.level_spec() + 2,
        g.parent_spec().parent_spec() == m,
        g.coord(face.axis()) == 4 * m.coord(face.axis()) + 3 * face.side(),
{
    lemma_face_child(m, c, face, k);
    lemma_face_child(c, g, face, j);
}

} // verus!

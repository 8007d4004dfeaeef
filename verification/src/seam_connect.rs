//! Stitching a seam by connecting neighbouring leaves: on the leaf level of
//! the seam octree, each leaf is joined along each axis with its neighbours
//! across the two faces and the edge beyond that axis, by one triangle where
//! two of them are there and by two where all three are, turned by the side
//! of the surface that the leaf's corner lies on.
//!
//! Each leaf's vertex has an id, looked up under the key of the leaf's cell;
//! the vertex positions, normals and biomes are kept beside these ids by the
//! code that computes them.
use std::collections::HashMap;
use vstd::prelude::*;
use crate::address::face_step;
use crate::buffer_type::IsosurfaceSide;
use crate::dc_octree::{Node, Octree, OctreeLevel, key_cell};
use crate::morton_code::{MortonCode, node_key, lemma_node_key_injective};
use crate::morton_code_neighbor::{
    MortonCodeError,
    neighbor_result_ok,
    in_grid,
    edge_face_0,
    edge_face_1,
};
use crate::tables::{EdgeIndex, FaceIndex, face_of};

verus! {

broadcast use vstd::std_specs::hash::group_hash_axioms;

/// The triangle indices of a seam and the vertex id of each leaf, by the
/// key of the leaf's cell.
pub struct SeamConnectData {
    pub indices: Vec<u32>,
    pub address_vertex_id_map: HashMap<u64, u32>,
}

impl Default for SeamConnectData {
    fn default() -> (r: SeamConnectData)
        ensures
            r.indices@ == Seq::<u32>::empty(),
            r.address_vertex_id_map@ == Map::<u64, u32>::empty(),
    {
        SeamConnectData { indices: Vec::new(), address_vertex_id_map: HashMap::new() }
    }
}

/// The cell on the level of `c` at grid coordinates `(tx, ty, tz)`, or the
/// error of a search that leaves the grid.
pub open spec fn neighbor_cell(c: MortonCode, tx: int, ty: int, tz: int) -> Result<
    MortonCode,
    MortonCodeError,
> {
    if in_grid(c.level_spec(), tx) && in_grid(c.level_spec(), ty) && in_grid(c.level_spec(), tz) {
        Ok(MortonCode::cell_at(c.level_spec(), tx as nat, ty as nat, tz as nat))
    } else {
        Err(MortonCodeError::CellIndexOutOfRange)
    }
}

/// The cell across `face` from `c`.
pub open spec fn face_neighbor(c: MortonCode, face: FaceIndex) -> Result<MortonCode, MortonCodeError> {
    neighbor_cell(
        c,
        c.coord(0) + face_step(face, 0),
        c.coord(1) + face_step(face, 1),
        c.coord(2) + face_step(face, 2),
    )
}

/// The cell across `edge` from `c`.
pub open spec fn edge_neighbor(c: MortonCode, edge: EdgeIndex) -> Result<MortonCode, MortonCodeError> {
    neighbor_cell(
        c,
        c.coord(0) + face_step(edge_face_0(edge), 0) + face_step(edge_face_1(edge), 0),
        c.coord(1) + face_step(edge_face_0(edge), 1) + face_step(edge_face_1(edge), 1),
        c.coord(2) + face_step(edge_face_0(edge), 2) + face_step(edge_face_1(edge), 2),
    )
}

/// A neighbour search meets its statement exactly with the cell at the
/// coordinates it aims at.
proof fn lemma_neighbor_result(
    c: MortonCode,
    tx: int,
    ty: int,
    tz: int,
    r: Result<MortonCode, MortonCodeError>,
)
    requires
        neighbor_result_ok(c, tx, ty, tz, r),
    ensures
        r == neighbor_cell(c, tx, ty, tz),
{
    if let Ok(n) = r {
        n.lemma_cell_at();
    }
}

/// The node that `level` holds for the search result `r`, if any.
pub open spec fn found_node(level: Map<u64, Node>, r: Result<MortonCode, MortonCodeError>) -> Seq<
    Node,
> {
    match r {
        Ok(n) => if level.contains_key(node_key(n)) {
            seq![level[node_key(n)]]
        } else {
            Seq::empty()
        },
        Err(_) => Seq::empty(),
    }
}

/// `node_0` and the nodes that `level` holds for the three searches.
pub open spec fn corner_nodes(
    node_0: Node,
    level: Map<u64, Node>,
    r1: Result<MortonCode, MortonCodeError>,
    r2: Result<MortonCode, MortonCodeError>,
    r3: Result<MortonCode, MortonCodeError>,
) -> Seq<Node> {
    seq![node_0] + found_node(level, r1) + found_node(level, r2) + found_node(level, r3)
}

/// The nodes joined with the leaf `node_0` at `code_0` along x: across the
/// front face, the edge beyond it and above, and the top face.
pub open spec fn x_axis_nodes(code_0: MortonCode, node_0: Node, level: Map<u64, Node>) -> Seq<Node> {
    corner_nodes(
        node_0,
        level,
        face_neighbor(code_0, FaceIndex::Front),
        edge_neighbor(code_0, EdgeIndex::XAxisY1Z1),
        face_neighbor(code_0, FaceIndex::Top),
    )
}

/// The nodes joined along y: across the right face, the edge beyond it and
/// to the front, and the front face.
pub open spec fn y_axis_nodes(code_0: MortonCode, node_0: Node, level: Map<u64, Node>) -> Seq<Node> {
    corner_nodes(
        node_0,
        level,
        face_neighbor(code_0, FaceIndex::Right),
        edge_neighbor(code_0, EdgeIndex::YAxisX1Z1),
        face_neighbor(code_0, FaceIndex::Front),
    )
}

/// The nodes joined along z: across the right face, the edge beyond it and
/// above, and the top face.
pub open spec fn z_axis_nodes(code_0: MortonCode, node_0: Node, level: Map<u64, Node>) -> Seq<Node> {
    corner_nodes(
        node_0,
        level,
        face_neighbor(code_0, FaceIndex::Right),
        edge_neighbor(code_0, EdgeIndex::ZAxisX1Y1),
        face_neighbor(code_0, FaceIndex::Top),
    )
}

/// The nodes joined with the leaf `node_0` at `code_0` along an axis are
/// those that its level holds at the three cells of that level that share
/// the leaf's far edge along the axis, taken round the edge: along x the
/// cells one step up in z, in y and z, and in y; along y one step up in x,
/// in x and z, and in z; along z one step up in x, in x and y, and in y.
pub proof fn lemma_axis_nodes_round_edge(code_0: MortonCode, node_0: Node, level: Map<u64, Node>)
    ensures
        x_axis_nodes(code_0, node_0, level) == seq![node_0] + found_node(
            level,
            neighbor_cell(code_0, code_0.coord(0) as int, code_0.coord(1) as int, code_0.coord(2) as int + 1),
        ) + found_node(
            level,
            neighbor_cell(code_0, code_0.coord(0) as int, code_0.coord(1) as int + 1, code_0.coord(2) as int + 1),
        ) + found_node(
            level,
            neighbor_cell(code_0, code_0.coord(0) as int, code_0.coord(1) as int + 1, code_0.coord(2) as int),
        ),
        y_axis_nodes(code_0, node_0, level) == seq![node_0] + found_node(
            level,
            neighbor_cell(code_0, code_0.coord(0) as int + 1, code_0.coord(1) as int, code_0.coord(2) as int),
        ) + found_node(
            level,
            neighbor_cell(code_0, code_0.coord(0) as int + 1, code_0.coord(1) as int, code_0.coord(2) as int + 1),
        ) + found_node(
            level,
            neighbor_cell(code_0, code_0.coord(0) as int, code_0.coord(1) as int, code_0.coord(2) as int + 1),
        ),
        z_axis_nodes(code_0, node_0, level) == seq![node_0] + found_node(
            level,
            neighbor_cell(code_0, code_0.coord(0) as int + 1, code_0.coord(1) as int, code_0.coord(2) as int),
        ) + found_node(
            level,
            neighbor_cell(code_0, code_0.coord(0) as int + 1, code_0.coord(1) as int + 1, code_0.coord(2) as int),
        ) + found_node(
            level,
            neighbor_cell(code_0, code_0.coord(0) as int, code_0.coord(1) as int + 1, code_0.coord(2) as int),
        ),
{
    assert(face_of(2, 1) == FaceIndex::Front && face_of(1, 1) == FaceIndex::Top && face_of(0, 1)
        == FaceIndex::Right);
    assert(edge_face_0(EdgeIndex::XAxisY1Z1) == FaceIndex::Top);
    assert(edge_face_1(EdgeIndex::XAxisY1Z1) == FaceIndex::Front);
    assert(edge_face_0(EdgeIndex::YAxisX1Z1) == FaceIndex::Right);
    assert(edge_face_1(EdgeIndex::YAxisX1Z1) == FaceIndex::Front);
    assert(edge_face_0(EdgeIndex::ZAxisX1Y1) == FaceIndex::Right);
    assert(edge_face_1(EdgeIndex::ZAxisX1Y1) == FaceIndex::Top);
}

/// The vertex id of node `n`.
pub open spec fn vertex_id(ids: Map<u64, u32>, n: Node) -> u32 {
    ids[node_key(n.address)]
}

/// Whether every one of `nodes` has a vertex id.
pub open spec fn ids_known(ids: Map<u64, u32>, nodes: Seq<Node>) -> bool {
    forall|j: int| 0 <= j < nodes.len() ==> ids.contains_key(node_key(#[trigger] nodes[j].address))
}

/// The triangles over `nodes` (the first node and those found after it):
/// two over four nodes, one over three, none over fewer; wound one way
/// where the first node's corner is inside the surface and the other way
/// where it is outside.
pub open spec fn connect_triangles(ids: Map<u64, u32>, nodes: Seq<Node>, inside: bool) -> Seq<u32> {
    if nodes.len() == 4 {
        let i0 = vertex_id(ids, nodes[0]);
        let i1 = vertex_id(ids, nodes[1]);
        let i2 = vertex_id(ids, nodes[2]);
        let i3 = vertex_id(ids, nodes[3]);
        if inside {
            seq![i0, i1, i2, i0, i2, i3]
        } else {
            seq![i0, i2, i1, i0, i3, i2]
        }
    } else if nodes.len() == 3 {
        let i0 = vertex_id(ids, nodes[0]);
        let i1 = vertex_id(ids, nodes[1]);
        let i2 = vertex_id(ids, nodes[2]);
        if inside {
            seq![i0, i1, i2]
        } else {
            seq![i0, i2, i1]
        }
    } else {
        Seq::empty()
    }
}

/// `s` with each triangle's winding reversed: its second and third
/// vertices swapped.
pub open spec fn reverse_winding(s: Seq<u32>) -> Seq<u32> {
    Seq::new(
        s.len(),
        |i: int|
            if i % 3 == 1 && i + 1 < s.len() {
                s[i + 1]
            } else if i % 3 == 2 {
                s[i - 1]
            } else {
                s[i]
            },
    )
}

/// The triangles over the first node and those found after it: a fan
/// around the first node, one triangle for each two nodes that follow one
/// another, wound in their order where the first node's corner is inside
/// the surface; where it is outside, every triangle is the same with its
/// winding reversed. Fewer than three nodes give none.
pub proof fn lemma_connect_winding(ids: Map<u64, u32>, nodes: Seq<Node>)
    requires
        nodes.len() <= 4,
    ensures
        nodes.len() < 3 ==> connect_triangles(ids, nodes, true) == Seq::<u32>::empty(),
        nodes.len() >= 3 ==> connect_triangles(ids, nodes, true).len() == 3 * (nodes.len() - 2),
        forall|t: int|
            0 <= t < nodes.len() - 2 ==> #[trigger] connect_triangles(ids, nodes, true).subrange(
                3 * t,
                3 * t + 3,
            ) == seq![
                vertex_id(ids, nodes[0]),
                vertex_id(ids, nodes[t + 1]),
                vertex_id(ids, nodes[t + 2]),
            ],
        connect_triangles(ids, nodes, false) == reverse_winding(connect_triangles(ids, nodes, true)),
{
    let q = connect_triangles(ids, nodes, true);
    assert forall|t: int| 0 <= t < nodes.len() - 2 implies #[trigger] q.subrange(3 * t, 3 * t + 3)
        == seq![vertex_id(ids, nodes[0]), vertex_id(ids, nodes[t + 1]), vertex_id(ids, nodes[t + 2])] by {
        assert(q.subrange(3 * t, 3 * t + 3) =~= seq![
            vertex_id(ids, nodes[0]),
            vertex_id(ids, nodes[t + 1]),
            vertex_id(ids, nodes[t + 2]),
        ]);
    }
    assert(connect_triangles(ids, nodes, false) =~= reverse_winding(q));
}

/// Appends to `nodes` the node that `level` holds for the search result
/// `r`, if any.
fn push_found(level: &HashMap<u64, Node>, r: Result<MortonCode, MortonCodeError>, nodes: &mut Vec<Node>)
    ensures
        final(nodes)@ == old(nodes)@ + found_node(level@, r),
{
    if let Ok(code) = r {
        let key = code.key();
        match level.get(&key) {
            Some(n) => {
                nodes.push(*n);
                assert(nodes@ =~= old(nodes)@ + found_node(level@, r));
            },
            None => {
                assert(nodes@ =~= old(nodes)@ + found_node(level@, r));
            },
        }
    } else {
        assert(nodes@ =~= old(nodes)@ + found_node(level@, r));
    }
}

/// The vertex id of `n`.
fn vertex_id_of(ids: &HashMap<u64, u32>, n: &Node) -> (r: u32)
    requires
        ids@.contains_key(node_key(n.address)),
    ensures
        r == vertex_id(ids@, *n),
{
    *ids.get(&n.address.key()).unwrap()
}

/// Appends the triangles over `nodes`.
fn connect_nodes(nodes: &Vec<Node>, inside: bool, data: &mut SeamConnectData)
    requires
        nodes.len() >= 3 ==> ids_known(old(data).address_vertex_id_map@, nodes@),
    ensures
        final(data).address_vertex_id_map@ == old(data).address_vertex_id_map@,
        final(data).indices@ == old(data).indices@ + connect_triangles(
            old(data).address_vertex_id_map@,
            nodes@,
            inside,
        ),
{
    let ghost ids = data.address_vertex_id_map@;
    if nodes.len() < 3 {
        assert(data.indices@ =~= old(data).indices@ + connect_triangles(ids, nodes@, inside));
        return;
    }
    if nodes.len() == 4 {
        let index_0 = vertex_id_of(&data.address_vertex_id_map, &nodes[0]);
        let index_1 = vertex_id_of(&data.address_vertex_id_map, &nodes[1]);
        let index_2 = vertex_id_of(&data.address_vertex_id_map, &nodes[2]);
        let index_3 = vertex_id_of(&data.address_vertex_id_map, &nodes[3]);
        if inside {
            data.indices.push(index_0);
            data.indices.push(index_1);
            data.indices.push(index_2);
            data.indices.push(index_0);
            data.indices.push(index_2);
            data.indices.push(index_3);
        } else {
            data.indices.push(index_0);
            data.indices.push(index_2);
            data.indices.push(index_1);
            data.indices.push(index_0);
            data.indices.push(index_3);
            data.indices.push(index_2);
        }
    } else if nodes.len() == 3 {
        let index_0 = vertex_id_of(&data.address_vertex_id_map, &nodes[0]);
        let index_1 = vertex_id_of(&data.address_vertex_id_map, &nodes[1]);
        let index_2 = vertex_id_of(&data.address_vertex_id_map, &nodes[2]);
        if inside {
            data.indices.push(index_0);
            data.indices.push(index_1);
            data.indices.push(index_2);
        } else {
            data.indices.push(index_0);
            data.indices.push(index_2);
            data.indices.push(index_1);
        }
    } else {
    }
    assert(data.indices@ =~= old(data).indices@ + connect_triangles(ids, nodes@, inside));
}

/// Joins `node_0` with the nodes that `level` holds for the three search
/// results.
fn connect_found(
    node_0: &Node,
    level: &OctreeLevel,
    r1: Result<MortonCode, MortonCodeError>,
    r2: Result<MortonCode, MortonCodeError>,
    r3: Result<MortonCode, MortonCodeError>,
    inside: bool,
    data: &mut SeamConnectData,
)
    requires
        corner_nodes(*node_0, level.address_node_map@, r1, r2, r3).len() >= 3 ==> ids_known(
            old(data).address_vertex_id_map@,
            corner_nodes(*node_0, level.address_node_map@, r1, r2, r3),
        ),
    ensures
        final(data).address_vertex_id_map@ == old(data).address_vertex_id_map@,
        final(data).indices@ == old(data).indices@ + connect_triangles(
            old(data).address_vertex_id_map@,
            corner_nodes(*node_0, level.address_node_map@, r1, r2, r3),
            inside,
        ),
{
    let mut nodes: Vec<Node> = Vec::new();
    nodes.push(*node_0);
    push_found(&level.address_node_map, r1, &mut nodes);
    push_found(&level.address_node_map, r2, &mut nodes);
    push_found(&level.address_node_map, r3, &mut nodes);
    assert(nodes@ =~= corner_nodes(*node_0, level.address_node_map@, r1, r2, r3));
    connect_nodes(&nodes, inside, data);
}

/// The cell across `face` from `code`.
fn face_neighbor_of(code: MortonCode, face: FaceIndex) -> (r: Result<MortonCode, MortonCodeError>)
    ensures
        r == face_neighbor(code, face),
{
    let r = code.get_neighbor_face_morton_code(face);
    proof {
        lemma_neighbor_result(
            code,
            code.coord(0) + face_step(face, 0),
            code.coord(1) + face_step(face, 1),
            code.coord(2) + face_step(face, 2),
            r,
        );
    }
    r
}

/// The cell across `edge` from `code`.
fn edge_neighbor_of(code: MortonCode, edge: EdgeIndex) -> (r: Result<MortonCode, MortonCodeError>)
    ensures
        r == edge_neighbor(code, edge),
{
    let r = code.get_neighbor_edge_morton_code(edge);
    proof {
        lemma_neighbor_result(
            code,
            code.coord(0) + face_step(edge_face_0(edge), 0) + face_step(edge_face_1(edge), 0),
            code.coord(1) + face_step(edge_face_0(edge), 1) + face_step(edge_face_1(edge), 1),
            code.coord(2) + face_step(edge_face_0(edge), 2) + face_step(edge_face_1(edge), 2),
            r,
        );
    }
    r
}

/// Joins the leaf `node_0` at `code_0` along x with the nodes of `level`
/// across the front face, the edge beyond it and above, and the top face;
/// the winding follows the side of `node_0`'s corner 7.
pub fn connect_x(code_0: MortonCode, node_0: &Node, level: &OctreeLevel, data: &mut SeamConnectData)
    requires
        x_axis_nodes(code_0, *node_0, level.address_node_map@).len() >= 3 ==> ids_known(
            old(data).address_vertex_id_map@,
            x_axis_nodes(code_0, *node_0, level.address_node_map@),
        ),
    ensures
        final(data).address_vertex_id_map@ == old(data).address_vertex_id_map@,
        final(data).indices@ == old(data).indices@ + connect_triangles(
            old(data).address_vertex_id_map@,
            x_axis_nodes(code_0, *node_0, level.address_node_map@),
            node_0.vertices_side_types[7] == IsosurfaceSide::Inside,
        ),
{
    let front_code = face_neighbor_of(code_0, FaceIndex::Front);
    let front_top_code = edge_neighbor_of(code_0, EdgeIndex::XAxisY1Z1);
    let top_code = face_neighbor_of(code_0, FaceIndex::Top);
    let inside = node_0.vertices_side_types[7] == IsosurfaceSide::Inside;
    connect_found(node_0, level, front_code, front_top_code, top_code, inside, data);
}

/// Joins the leaf `node_0` at `code_0` along y with the nodes of `level`
/// across the right face, the edge beyond it and to the front, and the
/// front face; the winding follows the side of `node_0`'s corner 7.
pub fn connect_y(code_0: MortonCode, node_0: &Node, level: &OctreeLevel, data: &mut SeamConnectData)
    requires
        y_axis_nodes(code_0, *node_0, level.address_node_map@).len() >= 3 ==> ids_known(
            old(data).address_vertex_id_map@,
            y_axis_nodes(code_0, *node_0, level.address_node_map@),
        ),
    ensures
        final(data).address_vertex_id_map@ == old(data).address_vertex_id_map@,
        final(data).indices@ == old(data).indices@ + connect_triangles(
            old(data).address_vertex_id_map@,
            y_axis_nodes(code_0, *node_0, level.address_node_map@),
            node_0.vertices_side_types[7] == IsosurfaceSide::Inside,
        ),
{
    let right_code = face_neighbor_of(code_0, FaceIndex::Right);
    let right_front_code = edge_neighbor_of(code_0, EdgeIndex::YAxisX1Z1);
    let front_code = face_neighbor_of(code_0, FaceIndex::Front);
    let inside = node_0.vertices_side_types[7] == IsosurfaceSide::Inside;
    connect_found(node_0, level, right_code, right_front_code, front_code, inside, data);
}

/// Joins the leaf `node_0` at `code_0` along z with the nodes of `level`
/// across the right face, the edge beyond it and above, and the top face;
/// the winding follows the side of `node_0`'s corner 3.
pub fn connect_z(code_0: MortonCode, node_0: &Node, level: &OctreeLevel, data: &mut SeamConnectData)
    requires
        z_axis_nodes(code_0, *node_0, level.address_node_map@).len() >= 3 ==> ids_known(
            old(data).address_vertex_id_map@,
            z_axis_nodes(code_0, *node_0, level.address_node_map@),
        ),
    ensures
        final(data).address_vertex_id_map@ == old(data).address_vertex_id_map@,
        final(data).indices@ == old(data).indices@ + connect_triangles(
            old(data).address_vertex_id_map@,
            z_axis_nodes(code_0, *node_0, level.address_node_map@),
            node_0.vertices_side_types[3] == IsosurfaceSide::Inside,
        ),
{
    let right_code = face_neighbor_of(code_0, FaceIndex::Right);
    let right_top_code = edge_neighbor_of(code_0, EdgeIndex::ZAxisX1Y1);
    let top_code = face_neighbor_of(code_0, FaceIndex::Top);
    let inside = node_0.vertices_side_types[3] == IsosurfaceSide::Inside;
    connect_found(node_0, level, right_code, right_top_code, top_code, inside, data);
}

/// Whether every node of `level` has a vertex id.
pub open spec fn level_ids_known(level: Map<u64, Node>, ids: Map<u64, u32>) -> bool {
    forall|k: u64| #[trigger] level.contains_key(k) ==> ids.contains_key(node_key(level[k].address))
}

/// The triangles that join the leaf under key `k` along x, y and z (none
/// where `k` is no cell's key).
pub open spec fn key_triangles(level: Map<u64, Node>, ids: Map<u64, u32>, k: u64) -> Seq<u32> {
    if exists|c: MortonCode| c.wf() && node_key(c) == k {
        let c = key_cell(k);
        let n = level[k];
        connect_triangles(ids, x_axis_nodes(c, n, level), n.vertices_side_types[7] == IsosurfaceSide::Inside)
            + connect_triangles(
            ids,
            y_axis_nodes(c, n, level),
            n.vertices_side_types[7] == IsosurfaceSide::Inside,
        ) + connect_triangles(
            ids,
            z_axis_nodes(c, n, level),
            n.vertices_side_types[3] == IsosurfaceSide::Inside,
        )
    } else {
        Seq::empty()
    }
}

/// The triangles that join the leaves under `keys`, in that order.
pub open spec fn keys_triangles(level: Map<u64, Node>, ids: Map<u64, u32>, keys: Seq<u64>) -> Seq<u32>
    decreases keys.len(),
{
    if keys.len() == 0 {
        Seq::empty()
    } else {
        keys_triangles(level, ids, keys.drop_last()) + key_triangles(level, ids, keys.last())
    }
}

/// The nodes joined with a node of `level` are nodes of `level`, so each
/// has a vertex id where every node of `level` has one.
proof fn lemma_corner_ids(
    level: Map<u64, Node>,
    ids: Map<u64, u32>,
    k: u64,
    r1: Result<MortonCode, MortonCodeError>,
    r2: Result<MortonCode, MortonCodeError>,
    r3: Result<MortonCode, MortonCodeError>,
)
    requires
        level_ids_known(level, ids),
        level.contains_key(k),
    ensures
        ids_known(ids, corner_nodes(level[k], level, r1, r2, r3)),
{
    let nodes = corner_nodes(level[k], level, r1, r2, r3);
    assert forall|j: int| 0 <= j < nodes.len() implies ids.contains_key(
        node_key(#[trigger] nodes[j].address),
    ) by {
        assert(exists|k2: u64| level.contains_key(k2) && nodes[j] == level[k2]) by {
            let a = seq![level[k]];
            let b = found_node(level, r1);
            let c = found_node(level, r2);
            let d = found_node(level, r3);
            if j == 0 {
                assert(nodes[j] == level[k]);
            } else if j < 1 + b.len() {
                assert(nodes[j] == b[j - 1]);
            } else if j < 1 + b.len() + c.len() {
                assert(nodes[j] == c[j - 1 - b.len()]);
            } else {
                assert(nodes[j] == d[j - 1 - b.len() - c.len()]);
            }
        }
    }
}

/// Joins the leaf `node_0` that `level` holds under key `k` along x, y and
/// z.
fn connect_key(level: &OctreeLevel, k: u64, node_0: &Node, data: &mut SeamConnectData)
    requires
        level.address_node_map@.contains_key(k),
        *node_0 == level.address_node_map@[k],
        level_ids_known(level.address_node_map@, old(data).address_vertex_id_map@),
    ensures
        final(data).address_vertex_id_map@ == old(data).address_vertex_id_map@,
        final(data).indices@ == old(data).indices@ + key_triangles(
            level.address_node_map@,
            old(data).address_vertex_id_map@,
            k,
        ),
{
    let ghost lvl = level.address_node_map@;
    let ghost ids = data.address_vertex_id_map@;
    let ghost before = data.indices@;
    match MortonCode::from_key(k) {
        Some(code_0) => {
            proof {
                let q = key_cell(k);
                lemma_node_key_injective(q, code_0);
                lemma_corner_ids(
                    lvl,
                    ids,
                    k,
                    face_neighbor(code_0, FaceIndex::Front),
                    edge_neighbor(code_0, EdgeIndex::XAxisY1Z1),
                    face_neighbor(code_0, FaceIndex::Top),
                );
                lemma_corner_ids(
                    lvl,
                    ids,
                    k,
                    face_neighbor(code_0, FaceIndex::Right),
                    edge_neighbor(code_0, EdgeIndex::YAxisX1Z1),
                    face_neighbor(code_0, FaceIndex::Front),
                );
                lemma_corner_ids(
                    lvl,
                    ids,
                    k,
                    face_neighbor(code_0, FaceIndex::Right),
                    edge_neighbor(code_0, EdgeIndex::ZAxisX1Y1),
                    face_neighbor(code_0, FaceIndex::Top),
                );
            }
            connect_x(code_0, node_0, level, data);
            connect_y(code_0, node_0, level, data);
            connect_z(code_0, node_0, level, data);
            proof {
                assert(data.indices@ =~= before + key_triangles(lvl, ids, k));
            }
        },
        None => {
            proof {
                assert(data.indices@ =~= before + key_triangles(lvl, ids, k));
            }
        },
    }
}

/// Joins every leaf of the deepest level of `octree` with its neighbours
/// along x, y and z (in the order in which the level's map hands out its
/// keys), given the vertex id of each leaf.
pub fn seam_connect(octree: &Octree, address_vertex_id_map: HashMap<u64, u32>) -> (r: SeamConnectData)
    requires
        octree.levels.len() > 0,
        level_ids_known(octree.levels@.last().address_node_map@, address_vertex_id_map@),
    ensures
        r.address_vertex_id_map@ == address_vertex_id_map@,
        exists|keys: Seq<u64>|
            keys.no_duplicates() && keys.to_set() == octree.levels@.last().address_node_map@.dom()
                && r.indices@ == keys_triangles(
                octree.levels@.last().address_node_map@,
                address_vertex_id_map@,
                keys,
            ),
{
    let level = &octree.levels[octree.levels.len() - 1];
    let mut data = SeamConnectData { indices: Vec::new(), address_vertex_id_map };
    let ghost lvl = level.address_node_map@;
    let ghost ids = data.address_vertex_id_map@;
    let ghost mut seen: Seq<u64> = Seq::empty();
    assert(data.indices@ =~= keys_triangles(lvl, ids, seen));
    for k in iter: level.address_node_map.keys()
        invariant
            lvl == level.address_node_map@,
            ids == data.address_vertex_id_map@,
            level_ids_known(lvl, ids),
            iter.seq().unref().to_set() == lvl.dom(),
            iter.seq().unref().no_duplicates(),
            seen == iter.seq().unref().take(iter.index() as int),
            data.indices@ == keys_triangles(lvl, ids, seen),
            iter.index() == iter.seq().len() ==> seen.no_duplicates() && seen.to_set() == lvl.dom(),
    {
        proof {
            assert(iter.seq().unref().take(iter.index() as int + 1) =~= seen.push(*k));
            assert(iter.seq().unref().contains(*k));
            assert(iter.seq().unref().to_set().contains(*k));
        }
        let node_0 = level.address_node_map.get(k).unwrap();
        connect_key(level, *k, node_0, &mut data);
        proof {
            let seen_old = seen;
            seen = seen.push(*k);
            assert(seen.drop_last() =~= seen_old);
            assert(iter.index() + 1 == iter.seq().len() ==> seen =~= iter.seq().unref());
            assert(iter.index() + 1 == iter.seq().len() ==> seen.to_set() =~= lvl.dom());
        }
    }
    data
}

/// Whether `v` is the vertex id of a node of `level`.
pub open spec fn is_level_id(level: Map<u64, Node>, ids: Map<u64, u32>, v: u32) -> bool {
    exists|k: u64| level.contains_key(k) && v == #[trigger] vertex_id(ids, level[k])
}

/// Whether every one of `indices` is the vertex id of a node of `level`.
pub open spec fn ids_of_level(level: Map<u64, Node>, ids: Map<u64, u32>, indices: Seq<u32>) -> bool {
    forall|i: int| 0 <= i < indices.len() ==> is_level_id(level, ids, #[trigger] indices[i])
}

proof fn lemma_connect_triangles_of_level(
    level: Map<u64, Node>,
    ids: Map<u64, u32>,
    k: u64,
    r1: Result<MortonCode, MortonCodeError>,
    r2: Result<MortonCode, MortonCodeError>,
    r3: Result<MortonCode, MortonCodeError>,
    inside: bool,
)
    requires
        level.contains_key(k),
    ensures
        connect_triangles(ids, corner_nodes(level[k], level, r1, r2, r3), inside).len() % 3 == 0,
        ids_of_level(level, ids, connect_triangles(ids, corner_nodes(level[k], level, r1, r2, r3), inside)),
{
    let nodes = corner_nodes(level[k], level, r1, r2, r3);
    assert forall|j: int| 0 <= j < nodes.len() implies exists|k2: u64|
        level.contains_key(k2) && #[trigger] nodes[j] == level[k2] by {
        let b = found_node(level, r1);
        let c = found_node(level, r2);
        let d = found_node(level, r3);
        if j == 0 {
            assert(nodes[j] == level[k]);
        } else if j < 1 + b.len() {
            assert(nodes[j] == b[j - 1]);
        } else if j < 1 + b.len() + c.len() {
            assert(nodes[j] == c[j - 1 - b.len()]);
        } else {
            assert(nodes[j] == d[j - 1 - b.len() - c.len()]);
        }
    }
    let t = connect_triangles(ids, nodes, inside);
    assert forall|i: int| 0 <= i < t.len() implies is_level_id(level, ids, #[trigger] t[i]) by {
        assert(exists|j: int| 0 <= j < nodes.len() && t[i] == vertex_id(ids, nodes[j])) by {
            if nodes.len() == 4 {
                if inside {
                    assert(t =~= seq![vertex_id(ids, nodes[0]), vertex_id(ids, nodes[1]), vertex_id(ids, nodes[2]), vertex_id(ids, nodes[0]), vertex_id(ids, nodes[2]), vertex_id(ids, nodes[3])]);
                } else {
                    assert(t =~= seq![vertex_id(ids, nodes[0]), vertex_id(ids, nodes[2]), vertex_id(ids, nodes[1]), vertex_id(ids, nodes[0]), vertex_id(ids, nodes[3]), vertex_id(ids, nodes[2])]);
                }
                if i == 0 || i == 3 {
                    assert(t[i] == vertex_id(ids, nodes[0]));
                } else if (inside && i == 1) || (!inside && i == 2) {
                    assert(t[i] == vertex_id(ids, nodes[1]));
                } else if (inside && (i == 2 || i == 4)) || (!inside && (i == 1 || i == 5)) {
                    assert(t[i] == vertex_id(ids, nodes[2]));
                } else {
                    assert(t[i] == vertex_id(ids, nodes[3]));
                }
            } else {
                if i == 0 {
                    assert(t[i] == vertex_id(ids, nodes[0]));
                } else if (inside && i == 1) || (!inside && i == 2) {
                    assert(t[i] == vertex_id(ids, nodes[1]));
                } else {
                    assert(t[i] == vertex_id(ids, nodes[2]));
                }
            }
        }
        let j = choose|j: int| 0 <= j < nodes.len() && t[i] == vertex_id(ids, nodes[j]);
        let k2 = choose|k2: u64| level.contains_key(k2) && #[trigger] nodes[j] == level[k2];
        assert(level.contains_key(k2) && t[i] == vertex_id(ids, level[k2]));
    }
}

/// The triangles joining the leaf under `k` make whole triangles of vertex
/// ids of the level.
#[verifier::rlimit(40)]
proof fn lemma_key_triangles(level: Map<u64, Node>, ids: Map<u64, u32>, k: u64)
    requires
        level.contains_key(k),
    ensures
        key_triangles(level, ids, k).len() % 3 == 0,
        ids_of_level(level, ids, key_triangles(level, ids, k)),
{
    if exists|c: MortonCode| c.wf() && node_key(c) == k {
        let c = key_cell(k);
        let n = level[k];
        let sx = n.vertices_side_types[7] == IsosurfaceSide::Inside;
        let sz = n.vertices_side_types[3] == IsosurfaceSide::Inside;
        let tx = connect_triangles(ids, x_axis_nodes(c, n, level), sx);
        let ty = connect_triangles(ids, y_axis_nodes(c, n, level), sx);
        let tz = connect_triangles(ids, z_axis_nodes(c, n, level), sz);
        lemma_connect_triangles_of_level(
            level,
            ids,
            k,
            face_neighbor(c, FaceIndex::Front),
            edge_neighbor(c, EdgeIndex::XAxisY1Z1),
            face_neighbor(c, FaceIndex::Top),
            sx,
        );
        lemma_connect_triangles_of_level(
            level,
            ids,
            k,
            face_neighbor(c, FaceIndex::Right),
            edge_neighbor(c, EdgeIndex::YAxisX1Z1),
            face_neighbor(c, FaceIndex::Front),
            sx,
        );
        lemma_connect_triangles_of_level(
            level,
            ids,
            k,
            face_neighbor(c, FaceIndex::Right),
            edge_neighbor(c, EdgeIndex::ZAxisX1Y1),
            face_neighbor(c, FaceIndex::Top),
            sz,
        );
        lemma_ids_of_level_concat(level, ids, tx, ty);
        lemma_ids_of_level_concat(level, ids, tx + ty, tz);
        assert(key_triangles(level, ids, k) == tx + ty + tz);
    } else {
        assert(key_triangles(level, ids, k) =~= Seq::<u32>::empty());
    }
}

/// The indices that `seam_connect` gives for leaves of a level make whole
/// triangles, and each is the vertex id of a leaf of that level.
pub proof fn lemma_seam_connect_triangles(level: Map<u64, Node>, ids: Map<u64, u32>, keys: Seq<u64>)
    requires
        forall|i: int| 0 <= i < keys.len() ==> level.contains_key(#[trigger] keys[i]),
    ensures
        keys_triangles(level, ids, keys).len() % 3 == 0,
        ids_of_level(level, ids, keys_triangles(level, ids, keys)),
    decreases keys.len(),
{
    if keys.len() > 0 {
        let rest = keys.drop_last();
        let k = keys.last();
        assert(level.contains_key(keys[keys.len() - 1]));
        assert forall|i: int| 0 <= i < rest.len() implies level.contains_key(#[trigger] rest[i]) by {
            assert(rest[i] == keys[i]);
        }
        lemma_seam_connect_triangles(level, ids, rest);
        lemma_key_triangles(level, ids, k);
        lemma_ids_of_level_concat(level, ids, keys_triangles(level, ids, rest), key_triangles(level, ids, k));
    }
}

proof fn lemma_ids_of_level_concat(level: Map<u64, Node>, ids: Map<u64, u32>, a: Seq<u32>, b: Seq<u32>)
    requires
        ids_of_level(level, ids, a),
        ids_of_level(level, ids, b),
    ensures
        ids_of_level(level, ids, a + b),
{
    let t = a + b;
    assert forall|i: int| 0 <= i < t.len() implies is_level_id(level, ids, #[trigger] t[i]) by {
        if i < a.len() {
            assert(t[i] == a[i]);
        } else {
            assert(t[i] == b[i - a.len()]);
        }
    }
}

} // verus!

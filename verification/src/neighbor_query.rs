//! The leaf cells of the LOD octree that touch a cell across one of its
//! faces, edges or vertices.
//!
//! The cell across on the same level is taken where the octree holds it;
//! else its nearest ancestor that the octree holds, a few levels up at most;
//! else the leaves under it that touch the cell, a few levels down at most.
use vstd::prelude::*;
use crate::address::face_step;
use crate::lod_octree::TerrainLodOctree;
use crate::morton_code::MortonCode;
use crate::morton_code_neighbor::{
    in_grid, edge_face_0, edge_face_1, vertex_face, edge_child_digit, is_child_code,
    neighbor_result_ok, MortonCodeError,
};
use crate::tables::{
    FaceIndex, EdgeIndex, VertexIndex, face_subnode, twin_face_index, twin_edge_index,
    twin_vertex_index, vertex_of,
};

verus! {

/// The nearest cell above `c`, at most `depth` levels up, that the octree
/// holds.
pub open spec fn ancestor_in(octree: TerrainLodOctree, c: MortonCode, depth: nat) -> Option<
    MortonCode,
>
    decreases depth,
{
    if depth == 0 || c.level_spec() == 0 {
        None
    } else {
        let p = c.parent_spec();
        if octree.has_node(p) {
            Some(p)
        } else {
            ancestor_in(octree, p, (depth - 1) as nat)
        }
    }
}

/// The leaves that the octree holds under `c`, at most `depth` levels down,
/// among the children at `digits(0)`..`digits(count - 1)` (each child taken
/// where the octree holds it, else searched in turn); none at the deepest
/// level.
pub open spec fn descendants_in(
    octree: TerrainLodOctree,
    c: MortonCode,
    digits: spec_fn(nat) -> nat,
    count: nat,
    depth: nat,
) -> Seq<MortonCode>
    decreases depth, 1nat, 0nat,
{
    if depth == 0 || c.level_spec() >= 21 {
        seq![]
    } else {
        children_found(octree, c, digits, count, depth, count)
    }
}

/// What the search finds under the first `k` of those children.
pub open spec fn children_found(
    octree: TerrainLodOctree,
    c: MortonCode,
    digits: spec_fn(nat) -> nat,
    count: nat,
    depth: nat,
    k: nat,
) -> Seq<MortonCode>
    decreases depth, 0nat, k,
{
    if k == 0 || depth == 0 {
        seq![]
    } else {
        let child = c.child_spec(digits((k - 1) as nat));
        children_found(octree, c, digits, count, depth, (k - 1) as nat) + if octree.has_node(
            child,
        ) {
            seq![child]
        } else {
            descendants_in(octree, child, digits, count, (depth - 1) as nat)
        }
    }
}

/// The children of a cell that touch `face`.
pub open spec fn face_digits(face: FaceIndex) -> spec_fn(nat) -> nat {
    |k: nat| face_subnode(face, k)
}

/// The children of a cell that touch `edge`, lower first.
pub open spec fn edge_digits(edge: EdgeIndex) -> spec_fn(nat) -> nat {
    |k: nat| edge_child_digit(edge, k as int)
}

/// The child of a cell that touches `vertex`.
pub open spec fn vertex_digits(vertex: VertexIndex) -> spec_fn(nat) -> nat {
    |k: nat| vertex.repr()
}

/// The nearest ancestor of `current_node_code`, at most `depth` levels up,
/// that the octree holds.
pub fn get_parent_lod_octree_node(
    lod_octree_map: &TerrainLodOctree,
    current_node_code: &MortonCode,
    depth: u8,
) -> (r: Option<MortonCode>)
    ensures
        r == ancestor_in(*lod_octree_map, *current_node_code, depth as nat),
    decreases depth,
{
    if depth == 0 {
        return None;
    }
    if let Some(parent_code) = current_node_code.parent() {
        match lod_octree_map.get_node(&parent_code) {
            Some(node) => Some(node),
            None => get_parent_lod_octree_node(lod_octree_map, &parent_code, depth - 1),
        }
    } else {
        None
    }
}

/// The leaves under `parent_code`, at most `depth` levels down, that touch
/// `vertex_index`.
pub fn get_child_lod_octree_nodes_by_vertex(
    lod_octree_map: &TerrainLodOctree,
    parent_code: MortonCode,
    vertex_index: VertexIndex,
    depth: u8,
) -> (r: Vec<MortonCode>)
    ensures
        r@ == descendants_in(*lod_octree_map, parent_code, vertex_digits(vertex_index), 1, depth as nat),
    decreases depth,
{
    let mut children: Vec<MortonCode> = Vec::new();
    if depth == 0 {
        return children;
    }
    parent_code.check_wf();
    let children_address = parent_code.get_children_morton_code_by_vertex(vertex_index);
    let ghost digits = vertex_digits(vertex_index);
    proof {
        assert forall|k: int| 0 <= k < children_address.len() implies #[trigger] children_address[k]
            == parent_code.child_spec(digits(k as nat)) by {
            assert(is_child_code(parent_code, children_address[k], vertex_index.repr()));
            parent_code.lemma_child_spec(children_address[k], vertex_index.repr());
        }
    }
    let mut i: usize = 0;
    while i < children_address.len()
        invariant
            digits == vertex_digits(vertex_index),
            parent_code.wf(),
            depth > 0,
            i <= children_address.len(),
            parent_code.level_spec() == 21 ==> children_address.len() == 0,
            parent_code.level_spec() < 21 ==> children_address.len() == 1,
            forall|k: int|
                0 <= k < children_address.len() ==> #[trigger] children_address[k]
                    == parent_code.child_spec(digits(k as nat)),
            children@ == children_found(*lod_octree_map, parent_code, digits, 1, depth as nat, i as nat),
        decreases children_address.len() - i,
    {
        let child = children_address[i];
        let ghost before = children@;
        proof {
            assert(children_found(*lod_octree_map, parent_code, digits, 1, depth as nat, (i + 1) as nat)
                == before + if lod_octree_map.has_node(child) {
                seq![child]
            } else {
                descendants_in(*lod_octree_map, child, digits, 1, (depth - 1) as nat)
            });
        }
        match lod_octree_map.get_node(&child) {
            Some(child_node) => {
                children.push(child_node);
                assert(children@ =~= before + seq![child]);
            },
            None => {
                let mut found = get_child_lod_octree_nodes_by_vertex(
                    lod_octree_map,
                    child,
                    vertex_index,
                    depth - 1,
                );
                let ghost found_seq = found@;
                children.append(&mut found);
                assert(children@ =~= before + found_seq);
            },
        }
        i = i + 1;
    }
    children
}

/// The leaves under `parent_code`, at most `depth` levels down, that touch
/// `edge_index`.
pub fn get_children_lod_octree_nodes_by_edge(
    lod_octree_map: &TerrainLodOctree,
    parent_code: MortonCode,
    edge_index: EdgeIndex,
    depth: u8,
) -> (r: Vec<MortonCode>)
    ensures
        r@ == descendants_in(*lod_octree_map, parent_code, edge_digits(edge_index), 2, depth as nat),
    decreases depth,
{
    let mut children: Vec<MortonCode> = Vec::new();
    if depth == 0 {
        return children;
    }
    parent_code.check_wf();
    let children_address = parent_code.get_children_morton_code_by_edge(edge_index);
    let ghost digits = edge_digits(edge_index);
    proof {
        assert forall|k: int| 0 <= k < children_address.len() implies #[trigger] children_address[k]
            == parent_code.child_spec(digits(k as nat)) by {
            assert(is_child_code(parent_code, children_address[k], edge_child_digit(edge_index, k)));
            parent_code.lemma_child_spec(children_address[k], edge_child_digit(edge_index, k));
        }
    }
    let mut i: usize = 0;
    while i < children_address.len()
        invariant
            digits == edge_digits(edge_index),
            parent_code.wf(),
            depth > 0,
            i <= children_address.len(),
            parent_code.level_spec() == 21 ==> children_address.len() == 0,
            parent_code.level_spec() < 21 ==> children_address.len() == 2,
            forall|k: int|
                0 <= k < children_address.len() ==> #[trigger] children_address[k]
                    == parent_code.child_spec(digits(k as nat)),
            children@ == children_found(*lod_octree_map, parent_code, digits, 2, depth as nat, i as nat),
        decreases children_address.len() - i,
    {
        let child = children_address[i];
        let ghost before = children@;
        proof {
            assert(children_found(*lod_octree_map, parent_code, digits, 2, depth as nat, (i + 1) as nat)
                == before + if lod_octree_map.has_node(child) {
                seq![child]
            } else {
                descendants_in(*lod_octree_map, child, digits, 2, (depth - 1) as nat)
            });
        }
        match lod_octree_map.get_node(&child) {
            Some(child_node) => {
                children.push(child_node);
                assert(children@ =~= before + seq![child]);
            },
            None => {
                let mut found = get_children_lod_octree_nodes_by_edge(
                    lod_octree_map,
                    child,
                    edge_index,
                    depth - 1,
                );
                let ghost found_seq = found@;
                children.append(&mut found);
                assert(children@ =~= before + found_seq);
            },
        }
        i = i + 1;
    }
    children
}

/// The leaves under `parent_code`, at most `depth` levels down, that touch
/// `face_index`.
pub fn get_children_lod_octree_nodes_by_face(
    lod_octree: &TerrainLodOctree,
    parent_code: MortonCode,
    face_index: FaceIndex,
    depth: u8,
) -> (r: Vec<MortonCode>)
    ensures
        r@ == descendants_in(*lod_octree, parent_code, face_digits(face_index), 4, depth as nat),
    decreases depth,
{
    let mut children: Vec<MortonCode> = Vec::new();
    if depth == 0 {
        return children;
    }
    parent_code.check_wf();
    let children_address = parent_code.get_children_morton_code_by_face(face_index);
    let ghost digits = face_digits(face_index);
    proof {
        assert forall|k: int| 0 <= k < children_address.len() implies #[trigger] children_address[k]
            == parent_code.child_spec(digits(k as nat)) by {
            assert(is_child_code(parent_code, children_address[k], face_subnode(face_index, k as nat)));
            parent_code.lemma_child_spec(children_address[k], face_subnode(face_index, k as nat));
        }
    }
    let mut i: usize = 0;
    while i < children_address.len()
        invariant
            digits == face_digits(face_index),
            parent_code.wf(),
            depth > 0,
            i <= children_address.len(),
            parent_code.level_spec() == 21 ==> children_address.len() == 0,
            parent_code.level_spec() < 21 ==> children_address.len() == 4,
            forall|k: int|
                0 <= k < children_address.len() ==> #[trigger] children_address[k]
                    == parent_code.child_spec(digits(k as nat)),
            children@ == children_found(*lod_octree, parent_code, digits, 4, depth as nat, i as nat),
        decreases children_address.len() - i,
    {
        let child = children_address[i];
        let ghost before = children@;
        proof {
            assert(children_found(*lod_octree, parent_code, digits, 4, depth as nat, (i + 1) as nat)
                == before + if lod_octree.has_node(child) {
                seq![child]
            } else {
                descendants_in(*lod_octree, child, digits, 4, (depth - 1) as nat)
            });
        }
        match lod_octree.get_node(&child) {
            Some(child_node) => {
                children.push(child_node);
                assert(children@ =~= before + seq![child]);
            },
            None => {
                let mut found = get_children_lod_octree_nodes_by_face(
                    lod_octree,
                    child,
                    face_index,
                    depth - 1,
                );
                let ghost found_seq = found@;
                children.append(&mut found);
                assert(children@ =~= before + found_seq);
            },
        }
        i = i + 1;
    }
    children
}

/// The cell on `c`'s level at `(tx, ty, tz)`, where those lie in its grid.
pub open spec fn cell_toward(c: MortonCode, tx: int, ty: int, tz: int) -> Option<MortonCode> {
    if in_grid(c.level_spec(), tx) && in_grid(c.level_spec(), ty) && in_grid(c.level_spec(), tz) {
        Some(MortonCode::cell_at(c.level_spec(), tx as nat, ty as nat, tz as nat))
    } else {
        None
    }
}

/// The cell across `face` from `c` on its level.
pub open spec fn face_neighbor_cell(c: MortonCode, face: FaceIndex) -> Option<MortonCode> {
    cell_toward(
        c,
        c.coord(0) + face_step(face, 0),
        c.coord(1) + face_step(face, 1),
        c.coord(2) + face_step(face, 2),
    )
}

/// The cell across `edge` from `c` on its level.
pub open spec fn edge_neighbor_cell(c: MortonCode, edge: EdgeIndex) -> Option<MortonCode> {
    cell_toward(
        c,
        c.coord(0) + face_step(edge_face_0(edge), 0) + face_step(edge_face_1(edge), 0),
        c.coord(1) + face_step(edge_face_0(edge), 1) + face_step(edge_face_1(edge), 1),
        c.coord(2) + face_step(edge_face_0(edge), 2) + face_step(edge_face_1(edge), 2),
    )
}

/// The cell across `vertex` from `c` on its level.
pub open spec fn vertex_neighbor_cell(c: MortonCode, vertex: VertexIndex) -> Option<MortonCode> {
    cell_toward(
        c,
        c.coord(0) + face_step(vertex_face(vertex, 0), 0),
        c.coord(1) + face_step(vertex_face(vertex, 1), 1),
        c.coord(2) + face_step(vertex_face(vertex, 2), 2),
    )
}

/// The leaves found for neighbour cell `n`: `n` where the octree holds it,
/// else its nearest held ancestor at most `depth` levels up, else the held
/// leaves under it, at most `depth` levels down, among the children at
/// `digits`.
pub open spec fn neighbor_search(
    octree: TerrainLodOctree,
    n: Option<MortonCode>,
    digits: spec_fn(nat) -> nat,
    count: nat,
    depth: nat,
) -> Seq<MortonCode> {
    match n {
        None => seq![],
        Some(n) => if octree.has_node(n) {
            seq![n]
        } else {
            match ancestor_in(octree, n, depth) {
                Some(p) => seq![p],
                None => descendants_in(octree, n, digits, count, depth),
            }
        },
    }
}

/// The leaves that touch `c` across `face`: under the neighbour, those on
/// its opposite face.
pub open spec fn face_neighbor_nodes(
    octree: TerrainLodOctree,
    c: MortonCode,
    face: FaceIndex,
    depth: nat,
) -> Seq<MortonCode> {
    neighbor_search(octree, face_neighbor_cell(c, face), face_digits(face.opposite()), 4, depth)
}

/// The leaves that touch `c` across `edge`: under the neighbour, those on
/// its twin edge.
pub open spec fn edge_neighbor_nodes(
    octree: TerrainLodOctree,
    c: MortonCode,
    edge: EdgeIndex,
    depth: nat,
) -> Seq<MortonCode> {
    neighbor_search(octree, edge_neighbor_cell(c, edge), edge_digits(edge.twin()), 2, depth)
}

/// The leaves that touch `c` across `vertex`: under the neighbour, those at
/// its opposite vertex.
pub open spec fn vertex_neighbor_nodes(
    octree: TerrainLodOctree,
    c: MortonCode,
    vertex: VertexIndex,
    depth: nat,
) -> Seq<MortonCode> {
    neighbor_search(
        octree,
        vertex_neighbor_cell(c, vertex),
        vertex_digits(vertex_of((7 - vertex.repr()) as nat)),
        1,
        depth,
    )
}

/// The number of distinct levels among `s`.
pub open spec fn level_count(s: Seq<MortonCode>) -> nat {
    s.map_values(|c: MortonCode| c.level_spec()).to_set().len()
}

/// A neighbour found on the same level, where the grid holds it, is the cell
/// at the target coordinates.
proof fn lemma_neighbor_cell(c: MortonCode, tx: int, ty: int, tz: int, r: Result<MortonCode, MortonCodeError>)
    requires
        neighbor_result_ok(c, tx, ty, tz, r),
    ensures
        match r {
            Ok(n) => cell_toward(c, tx, ty, tz) == Some(n),
            Err(_) => cell_toward(c, tx, ty, tz) is None,
        },
{
    if let Ok(n) = r {
        n.lemma_cell_at();
    }
}

/// The part of a neighbour cell that touches the cell it was looked for
/// from.
enum TouchingPart {
    Face(FaceIndex),
    Edge(EdgeIndex),
    Vertex(VertexIndex),
}

/// The children that touch `part`.
spec fn part_digits(part: TouchingPart) -> spec_fn(nat) -> nat {
    match part {
        TouchingPart::Face(f) => face_digits(f),
        TouchingPart::Edge(e) => edge_digits(e),
        TouchingPart::Vertex(v) => vertex_digits(v),
    }
}

/// The number of children that touch `part`.
spec fn part_count(part: TouchingPart) -> nat {
    match part {
        TouchingPart::Face(_) => 4,
        TouchingPart::Edge(_) => 2,
        TouchingPart::Vertex(_) => 1,
    }
}

/// The leaves that the search finds for a neighbour cell that was looked for.
fn search_neighbor(
    lod_octree: &TerrainLodOctree,
    neighbor_code: Result<MortonCode, MortonCodeError>,
    depth: u8,
    part: TouchingPart,
) -> (r: Vec<MortonCode>)
    ensures
        r@ == neighbor_search(
            *lod_octree,
            match neighbor_code {
                Ok(n) => Some(n),
                Err(_) => None,
            },
            part_digits(part),
            part_count(part),
            depth as nat,
        ),
{
    let mut nodes: Vec<MortonCode> = Vec::new();
    if let Ok(neighbor_code) = neighbor_code {
        match lod_octree.get_node(&neighbor_code) {
            Some(node) => {
                nodes.push(node);
            },
            None => {
                match get_parent_lod_octree_node(lod_octree, &neighbor_code, depth) {
                    Some(node) => {
                        nodes.push(node);
                    },
                    None => {
                        let mut children = match part {
                            TouchingPart::Face(f) => get_children_lod_octree_nodes_by_face(
                                lod_octree,
                                neighbor_code,
                                f,
                                depth,
                            ),
                            TouchingPart::Edge(e) => get_children_lod_octree_nodes_by_edge(
                                lod_octree,
                                neighbor_code,
                                e,
                                depth,
                            ),
                            TouchingPart::Vertex(v) => get_child_lod_octree_nodes_by_vertex(
                                lod_octree,
                                neighbor_code,
                                v,
                                depth,
                            ),
                        };
                        nodes.append(&mut children);
                    },
                }
            },
        }
    }
    assert(nodes@ =~= neighbor_search(
        *lod_octree,
        match neighbor_code {
            Ok(n) => Some(n),
            Err(_) => None,
        },
        part_digits(part),
        part_count(part),
        depth as nat,
    ));
    nodes
}

/// The leaves of the octree that touch `current_node` across `face_index`,
/// searching at most `depth` levels up or down; they span at most two
/// levels.
pub fn get_face_neighbor_lod_octree_nodes(
    lod_octree: &TerrainLodOctree,
    current_node: &MortonCode,
    face_index: FaceIndex,
    depth: u8,
) -> (r: Vec<MortonCode>)
    requires
        level_count(face_neighbor_nodes(*lod_octree, *current_node, face_index, depth as nat)) <= 2,
    ensures
        r@ == face_neighbor_nodes(*lod_octree, *current_node, face_index, depth as nat),
{
    let neighbor_code = current_node.get_neighbor_face_morton_code(face_index);
    proof {
        lemma_neighbor_cell(
            *current_node,
            current_node.coord(0) + face_step(face_index, 0),
            current_node.coord(1) + face_step(face_index, 1),
            current_node.coord(2) + face_step(face_index, 2),
            neighbor_code,
        );
    }
    let twin = twin_face_index(face_index);
    search_neighbor(lod_octree, neighbor_code, depth, TouchingPart::Face(twin))
}

/// The leaves of the octree that touch `current_node` across `edge_index`,
/// searching at most `depth` levels up or down; they span at most two
/// levels.
pub fn get_edge_neighbor_lod_octree_nodes(
    lod_octree: &TerrainLodOctree,
    current_node: &MortonCode,
    edge_index: EdgeIndex,
    depth: u8,
) -> (r: Vec<MortonCode>)
    requires
        level_count(edge_neighbor_nodes(*lod_octree, *current_node, edge_index, depth as nat)) <= 2,
    ensures
        r@ == edge_neighbor_nodes(*lod_octree, *current_node, edge_index, depth as nat),
{
    let neighbor_code = current_node.get_neighbor_edge_morton_code(edge_index);
    proof {
        let f0 = edge_face_0(edge_index);
        let f1 = edge_face_1(edge_index);
        lemma_neighbor_cell(
            *current_node,
            current_node.coord(0) + face_step(f0, 0) + face_step(f1, 0),
            current_node.coord(1) + face_step(f0, 1) + face_step(f1, 1),
            current_node.coord(2) + face_step(f0, 2) + face_step(f1, 2),
            neighbor_code,
        );
    }
    let twin = twin_edge_index(edge_index);
    search_neighbor(lod_octree, neighbor_code, depth, TouchingPart::Edge(twin))
}

/// The leaves of the octree that touch `current_node` across
/// `vertex_index`, searching at most `depth` levels up or down; they span at
/// most two levels.
pub fn get_vertex_neighbor_lod_octree_nodes(
    lod_octree: &TerrainLodOctree,
    current_node: &MortonCode,
    vertex_index: VertexIndex,
    depth: u8,
) -> (r: Vec<MortonCode>)
    requires
        level_count(vertex_neighbor_nodes(*lod_octree, *current_node, vertex_index, depth as nat))
            <= 2,
    ensures
        r@ == vertex_neighbor_nodes(*lod_octree, *current_node, vertex_index, depth as nat),
{
    let neighbor_code = current_node.get_neighbor_vertex_morton_code(vertex_index);
    proof {
        lemma_neighbor_cell(
            *current_node,
            current_node.coord(0) + face_step(vertex_face(vertex_index, 0), 0),
            current_node.coord(1) + face_step(vertex_face(vertex_index, 1), 1),
            current_node.coord(2) + face_step(vertex_face(vertex_index, 2), 2),
            neighbor_code,
        );
    }
    let twin = twin_vertex_index(vertex_index);
    search_neighbor(lod_octree, neighbor_code, depth, TouchingPart::Vertex(twin))
}

/// The leaves across the right, front and top faces and the three edges
/// where two of those meet, in that order.
pub open spec fn positive_direction_nodes(octree: TerrainLodOctree, c: MortonCode, depth: nat) -> Seq<MortonCode> {
    face_neighbor_nodes(octree, c, FaceIndex::Right, depth)
        + face_neighbor_nodes(octree, c, FaceIndex::Front, depth)
        + face_neighbor_nodes(octree, c, FaceIndex::Top, depth)
        + edge_neighbor_nodes(octree, c, EdgeIndex::XAxisY1Z1, depth)
        + edge_neighbor_nodes(octree, c, EdgeIndex::YAxisX1Z1, depth)
        + edge_neighbor_nodes(octree, c, EdgeIndex::ZAxisX1Y1, depth)
}

/// Each search that `positive_direction_nodes` makes finds leaves of at most two levels.
pub open spec fn positive_direction_nodes_ok(octree: TerrainLodOctree, c: MortonCode, depth: nat) -> bool {
    &&& level_count(face_neighbor_nodes(octree, c, FaceIndex::Right, depth)) <= 2
    &&& level_count(face_neighbor_nodes(octree, c, FaceIndex::Front, depth)) <= 2
    &&& level_count(face_neighbor_nodes(octree, c, FaceIndex::Top, depth)) <= 2
    &&& level_count(edge_neighbor_nodes(octree, c, EdgeIndex::XAxisY1Z1, depth)) <= 2
    &&& level_count(edge_neighbor_nodes(octree, c, EdgeIndex::YAxisX1Z1, depth)) <= 2
    &&& level_count(edge_neighbor_nodes(octree, c, EdgeIndex::ZAxisX1Y1, depth)) <= 2
}

/// The leaves across the left, back and bottom faces, the three edges where
/// two of those meet and the vertex where all three meet, in that order.
pub open spec fn negative_direction_nodes(octree: TerrainLodOctree, c: MortonCode, depth: nat) -> Seq<MortonCode> {
    face_neighbor_nodes(octree, c, FaceIndex::Left, depth)
        + face_neighbor_nodes(octree, c, FaceIndex::Back, depth)
        + face_neighbor_nodes(octree, c, FaceIndex::Bottom, depth)
        + edge_neighbor_nodes(octree, c, EdgeIndex::XAxisY0Z0, depth)
        + edge_neighbor_nodes(octree, c, EdgeIndex::YAxisX0Z0, depth)
        + edge_neighbor_nodes(octree, c, EdgeIndex::ZAxisX0Y0, depth)
        + vertex_neighbor_nodes(octree, c, VertexIndex::X0Y0Z0, depth)
}

/// Each search that `negative_direction_nodes` makes finds leaves of at most two levels.
pub open spec fn negative_direction_nodes_ok(octree: TerrainLodOctree, c: MortonCode, depth: nat) -> bool {
    &&& level_count(face_neighbor_nodes(octree, c, FaceIndex::Left, depth)) <= 2
    &&& level_count(face_neighbor_nodes(octree, c, FaceIndex::Back, depth)) <= 2
    &&& level_count(face_neighbor_nodes(octree, c, FaceIndex::Bottom, depth)) <= 2
    &&& level_count(edge_neighbor_nodes(octree, c, EdgeIndex::XAxisY0Z0, depth)) <= 2
    &&& level_count(edge_neighbor_nodes(octree, c, EdgeIndex::YAxisX0Z0, depth)) <= 2
    &&& level_count(edge_neighbor_nodes(octree, c, EdgeIndex::ZAxisX0Y0, depth)) <= 2
    &&& level_count(vertex_neighbor_nodes(octree, c, VertexIndex::X0Y0Z0, depth)) <= 2
}

/// The leaves across all six faces and all twelve edges, in that order.
pub open spec fn all_neighbor_nodes(octree: TerrainLodOctree, c: MortonCode, depth: nat) -> Seq<MortonCode> {
    face_neighbor_nodes(octree, c, FaceIndex::Right, depth)
        + face_neighbor_nodes(octree, c, FaceIndex::Front, depth)
        + face_neighbor_nodes(octree, c, FaceIndex::Top, depth)
        + face_neighbor_nodes(octree, c, FaceIndex::Left, depth)
        + face_neighbor_nodes(octree, c, FaceIndex::Back, depth)
        + face_neighbor_nodes(octree, c, FaceIndex::Bottom, depth)
        + edge_neighbor_nodes(octree, c, EdgeIndex::XAxisY1Z1, depth)
        + edge_neighbor_nodes(octree, c, EdgeIndex::YAxisX1Z1, depth)
        + edge_neighbor_nodes(octree, c, EdgeIndex::ZAxisX1Y1, depth)
        + edge_neighbor_nodes(octree, c, EdgeIndex::XAxisY0Z0, depth)
        + edge_neighbor_nodes(octree, c, EdgeIndex::YAxisX0Z0, depth)
        + edge_neighbor_nodes(octree, c, EdgeIndex::ZAxisX0Y0, depth)
        + edge_neighbor_nodes(octree, c, EdgeIndex::XAxisY0Z1, depth)
        + edge_neighbor_nodes(octree, c, EdgeIndex::YAxisX0Z1, depth)
        + edge_neighbor_nodes(octree, c, EdgeIndex::ZAxisX0Y1, depth)
        + edge_neighbor_nodes(octree, c, EdgeIndex::XAxisY1Z0, depth)
        + edge_neighbor_nodes(octree, c, EdgeIndex::YAxisX1Z0, depth)
        + edge_neighbor_nodes(octree, c, EdgeIndex::ZAxisX1Y0, depth)
}

/// Each search that `all_neighbor_nodes` makes finds leaves of at most two levels.
pub open spec fn all_neighbor_nodes_ok(octree: TerrainLodOctree, c: MortonCode, depth: nat) -> bool {
    &&& level_count(face_neighbor_nodes(octree, c, FaceIndex::Right, depth)) <= 2
    &&& level_count(face_neighbor_nodes(octree, c, FaceIndex::Front, depth)) <= 2
    &&& level_count(face_neighbor_nodes(octree, c, FaceIndex::Top, depth)) <= 2
    &&& level_count(face_neighbor_nodes(octree, c, FaceIndex::Left, depth)) <= 2
    &&& level_count(face_neighbor_nodes(octree, c, FaceIndex::Back, depth)) <= 2
    &&& level_count(face_neighbor_nodes(octree, c, FaceIndex::Bottom, depth)) <= 2
    &&& level_count(edge_neighbor_nodes(octree, c, EdgeIndex::XAxisY1Z1, depth)) <= 2
    &&& level_count(edge_neighbor_nodes(octree, c, EdgeIndex::YAxisX1Z1, depth)) <= 2
    &&& level_count(edge_neighbor_nodes(octree, c, EdgeIndex::ZAxisX1Y1, depth)) <= 2
    &&& level_count(edge_neighbor_nodes(octree, c, EdgeIndex::XAxisY0Z0, depth)) <= 2
    &&& level_count(edge_neighbor_nodes(octree, c, EdgeIndex::YAxisX0Z0, depth)) <= 2
    &&& level_count(edge_neighbor_nodes(octree, c, EdgeIndex::ZAxisX0Y0, depth)) <= 2
    &&& level_count(edge_neighbor_nodes(octree, c, EdgeIndex::XAxisY0Z1, depth)) <= 2
    &&& level_count(edge_neighbor_nodes(octree, c, EdgeIndex::YAxisX0Z1, depth)) <= 2
    &&& level_count(edge_neighbor_nodes(octree, c, EdgeIndex::ZAxisX0Y1, depth)) <= 2
    &&& level_count(edge_neighbor_nodes(octree, c, EdgeIndex::XAxisY1Z0, depth)) <= 2
    &&& level_count(edge_neighbor_nodes(octree, c, EdgeIndex::YAxisX1Z0, depth)) <= 2
    &&& level_count(edge_neighbor_nodes(octree, c, EdgeIndex::ZAxisX1Y0, depth)) <= 2
}

/// The leaves of the octree that touch `current_node` on its positive
/// sides.
pub fn get_neighbor_positive_direction_nodes(lod_octree: &TerrainLodOctree, current_node: &MortonCode, depth: u8) -> (r: Vec<
    MortonCode,
>)
    requires
        positive_direction_nodes_ok(*lod_octree, *current_node, depth as nat),
    ensures
        r@ == positive_direction_nodes(*lod_octree, *current_node, depth as nat),
{
    let mut nodes: Vec<MortonCode> = Vec::new();
    let mut part = get_face_neighbor_lod_octree_nodes(lod_octree, current_node, FaceIndex::Right, depth);
    nodes.append(&mut part);
    let mut part = get_face_neighbor_lod_octree_nodes(lod_octree, current_node, FaceIndex::Front, depth);
    nodes.append(&mut part);
    let mut part = get_face_neighbor_lod_octree_nodes(lod_octree, current_node, FaceIndex::Top, depth);
    nodes.append(&mut part);
    let mut part = get_edge_neighbor_lod_octree_nodes(lod_octree, current_node, EdgeIndex::XAxisY1Z1, depth);
    nodes.append(&mut part);
    let mut part = get_edge_neighbor_lod_octree_nodes(lod_octree, current_node, EdgeIndex::YAxisX1Z1, depth);
    nodes.append(&mut part);
    let mut part = get_edge_neighbor_lod_octree_nodes(lod_octree, current_node, EdgeIndex::ZAxisX1Y1, depth);
    nodes.append(&mut part);
    assert(nodes@ =~= positive_direction_nodes(*lod_octree, *current_node, depth as nat));
    nodes
}

/// The leaves of the octree that touch `current_node` on its negative
/// sides.
pub fn get_neighbor_negative_direction_nodes(lod_octree: &TerrainLodOctree, current_node: &MortonCode, depth: u8) -> (r: Vec<
    MortonCode,
>)
    requires
        negative_direction_nodes_ok(*lod_octree, *current_node, depth as nat),
    ensures
        r@ == negative_direction_nodes(*lod_octree, *current_node, depth as nat),
{
    let mut nodes: Vec<MortonCode> = Vec::new();
    let mut part = get_face_neighbor_lod_octree_nodes(lod_octree, current_node, FaceIndex::Left, depth);
    nodes.append(&mut part);
    let mut part = get_face_neighbor_lod_octree_nodes(lod_octree, current_node, FaceIndex::Back, depth);
    nodes.append(&mut part);
    let mut part = get_face_neighbor_lod_octree_nodes(lod_octree, current_node, FaceIndex::Bottom, depth);
    nodes.append(&mut part);
    let mut part = get_edge_neighbor_lod_octree_nodes(lod_octree, current_node, EdgeIndex::XAxisY0Z0, depth);
    nodes.append(&mut part);
    let mut part = get_edge_neighbor_lod_octree_nodes(lod_octree, current_node, EdgeIndex::YAxisX0Z0, depth);
    nodes.append(&mut part);
    let mut part = get_edge_neighbor_lod_octree_nodes(lod_octree, current_node, EdgeIndex::ZAxisX0Y0, depth);
    nodes.append(&mut part);
    let mut part = get_vertex_neighbor_lod_octree_nodes(lod_octree, current_node, VertexIndex::X0Y0Z0, depth);
    nodes.append(&mut part);
    assert(nodes@ =~= negative_direction_nodes(*lod_octree, *current_node, depth as nat));
    nodes
}

/// The leaves of the octree that touch `current_node` across a face or an
/// edge.
pub fn get_neighbor_all_nodes(lod_octree: &TerrainLodOctree, current_node: &MortonCode, depth: u8) -> (r: Vec<
    MortonCode,
>)
    requires
        all_neighbor_nodes_ok(*lod_octree, *current_node, depth as nat),
    ensures
        r@ == all_neighbor_nodes(*lod_octree, *current_node, depth as nat),
{
    let mut nodes: Vec<MortonCode> = Vec::new();
    let mut part = get_face_neighbor_lod_octree_nodes(lod_octree, current_node, FaceIndex::Right, depth);
    nodes.append(&mut part);
    let mut part = get_face_neighbor_lod_octree_nodes(lod_octree, current_node, FaceIndex::Front, depth);
    nodes.append(&mut part);
    let mut part = get_face_neighbor_lod_octree_nodes(lod_octree, current_node, FaceIndex::Top, depth);
    nodes.append(&mut part);
    let mut part = get_face_neighbor_lod_octree_nodes(lod_octree, current_node, FaceIndex::Left, depth);
    nodes.append(&mut part);
    let mut part = get_face_neighbor_lod_octree_nodes(lod_octree, current_node, FaceIndex::Back, depth);
    nodes.append(&mut part);
    let mut part = get_face_neighbor_lod_octree_nodes(lod_octree, current_node, FaceIndex::Bottom, depth);
    nodes.append(&mut part);
    let mut part = get_edge_neighbor_lod_octree_nodes(lod_octree, current_node, EdgeIndex::XAxisY1Z1, depth);
    nodes.append(&mut part);
    let mut part = get_edge_neighbor_lod_octree_nodes(lod_octree, current_node, EdgeIndex::YAxisX1Z1, depth);
    nodes.append(&mut part);
    let mut part = get_edge_neighbor_lod_octree_nodes(lod_octree, current_node, EdgeIndex::ZAxisX1Y1, depth);
    nodes.append(&mut part);
    let mut part = get_edge_neighbor_lod_octree_nodes(lod_octree, current_node, EdgeIndex::XAxisY0Z0, depth);
    nodes.append(&mut part);
    let mut part = get_edge_neighbor_lod_octree_nodes(lod_octree, current_node, EdgeIndex::YAxisX0Z0, depth);
    nodes.append(&mut part);
    let mut part = get_edge_neighbor_lod_octree_nodes(lod_octree, current_node, EdgeIndex::ZAxisX0Y0, depth);
    nodes.append(&mut part);
    let mut part = get_edge_neighbor_lod_octree_nodes(lod_octree, current_node, EdgeIndex::XAxisY0Z1, depth);
    nodes.append(&mut part);
    let mut part = get_edge_neighbor_lod_octree_nodes(lod_octree, current_node, EdgeIndex::YAxisX0Z1, depth);
    nodes.append(&mut part);
    let mut part = get_edge_neighbor_lod_octree_nodes(lod_octree, current_node, EdgeIndex::ZAxisX0Y1, depth);
    nodes.append(&mut part);
    let mut part = get_edge_neighbor_lod_octree_nodes(lod_octree, current_node, EdgeIndex::XAxisY1Z0, depth);
    nodes.append(&mut part);
    let mut part = get_edge_neighbor_lod_octree_nodes(lod_octree, current_node, EdgeIndex::YAxisX1Z0, depth);
    nodes.append(&mut part);
    let mut part = get_edge_neighbor_lod_octree_nodes(lod_octree, current_node, EdgeIndex::ZAxisX1Y0, depth);
    nodes.append(&mut part);
    assert(nodes@ =~= all_neighbor_nodes(*lod_octree, *current_node, depth as nat));
    nodes
}

/// Whether the octree holds every cell of `s`.
pub open spec fn all_held(octree: TerrainLodOctree, s: Seq<MortonCode>) -> bool {
    forall|i: int| 0 <= i < s.len() ==> #[trigger] octree.has_node(s[i])
}

proof fn lemma_all_held_concat(octree: TerrainLodOctree, a: Seq<MortonCode>, b: Seq<MortonCode>)
    requires
        all_held(octree, a),
        all_held(octree, b),
    ensures
        all_held(octree, a + b),
{
    assert forall|i: int| 0 <= i < (a + b).len() implies #[trigger] octree.has_node((a + b)[i]) by {
        if i < a.len() {
            assert((a + b)[i] == a[i]);
        } else {
            assert((a + b)[i] == b[i - a.len()]);
        }
    }
}

/// The ancestor search finds a cell that the octree holds, above the cell it
/// starts from and at most `depth` levels above it.
pub proof fn lemma_ancestor_in(octree: TerrainLodOctree, c: MortonCode, depth: nat)
    requires
        c.wf(),
    ensures
        ancestor_in(octree, c, depth) matches Some(p) ==> {
            &&& octree.has_node(p)
            &&& p.wf()
            &&& p.level_spec() < c.level_spec()
            &&& c.level_spec() <= p.level_spec() + depth
        },
    decreases depth,
{
    if depth > 0 && c.level_spec() > 0 {
        c.lemma_parent_spec();
        lemma_ancestor_in(octree, c.parent_spec(), (depth - 1) as nat);
    }
}

/// The descendant search finds only cells that the octree holds.
pub proof fn lemma_descendants_held(
    octree: TerrainLodOctree,
    c: MortonCode,
    digits: spec_fn(nat) -> nat,
    count: nat,
    depth: nat,
)
    ensures
        all_held(octree, descendants_in(octree, c, digits, count, depth)),
    decreases depth, 1nat, 0nat,
{
    if depth > 0 && c.level_spec() < 21 {
        lemma_children_found_held(octree, c, digits, count, depth, count);
    }
}

proof fn lemma_children_found_held(
    octree: TerrainLodOctree,
    c: MortonCode,
    digits: spec_fn(nat) -> nat,
    count: nat,
    depth: nat,
    k: nat,
)
    ensures
        all_held(octree, children_found(octree, c, digits, count, depth, k)),
    decreases depth, 0nat, k,
{
    if k > 0 && depth > 0 {
        let child = c.child_spec(digits((k - 1) as nat));
        lemma_children_found_held(octree, c, digits, count, depth, (k - 1) as nat);
        if !octree.has_node(child) {
            lemma_descendants_held(octree, child, digits, count, (depth - 1) as nat);
        }
        lemma_all_held_concat(
            octree,
            children_found(octree, c, digits, count, depth, (k - 1) as nat),
            if octree.has_node(child) {
                seq![child]
            } else {
                descendants_in(octree, child, digits, count, (depth - 1) as nat)
            },
        );
    }
}

/// The cell toward coordinates in the grid is a cell of the same level at
/// those coordinates.
pub proof fn lemma_cell_toward_wf(c: MortonCode, tx: int, ty: int, tz: int)
    requires
        c.wf(),
    ensures
        cell_toward(c, tx, ty, tz) matches Some(m) ==> {
            &&& m.wf()
            &&& m.level_spec() == c.level_spec()
            &&& m.coord(0) == tx
            &&& m.coord(1) == ty
            &&& m.coord(2) == tz
        },
{
    if in_grid(c.level_spec(), tx) && in_grid(c.level_spec(), ty) && in_grid(c.level_spec(), tz) {
        MortonCode::lemma_cell_at_wf(c.level_spec(), tx as nat, ty as nat, tz as nat);
    }
}

/// Every cell that a neighbour search returns is a leaf that the octree
/// holds.
pub proof fn lemma_neighbor_search_held(
    octree: TerrainLodOctree,
    n: Option<MortonCode>,
    digits: spec_fn(nat) -> nat,
    count: nat,
    depth: nat,
)
    requires
        n matches Some(c) ==> c.wf(),
    ensures
        all_held(octree, neighbor_search(octree, n, digits, count, depth)),
{
    if let Some(c) = n {
        if !octree.has_node(c) {
            lemma_ancestor_in(octree, c, depth);
            lemma_descendants_held(octree, c, digits, count, depth);
        }
    }
}

/// The leaves found across a face, an edge or a vertex are all leaves that
/// the octree holds.
pub proof fn lemma_neighbor_nodes_held(
    octree: TerrainLodOctree,
    c: MortonCode,
    face: FaceIndex,
    edge: EdgeIndex,
    vertex: VertexIndex,
    depth: nat,
)
    requires
        c.wf(),
    ensures
        all_held(octree, face_neighbor_nodes(octree, c, face, depth)),
        all_held(octree, edge_neighbor_nodes(octree, c, edge, depth)),
        all_held(octree, vertex_neighbor_nodes(octree, c, vertex, depth)),
{
    lemma_cell_toward_wf(
        c,
        c.coord(0) + face_step(face, 0),
        c.coord(1) + face_step(face, 1),
        c.coord(2) + face_step(face, 2),
    );
    lemma_cell_toward_wf(
        c,
        c.coord(0) + face_step(edge_face_0(edge), 0) + face_step(edge_face_1(edge), 0),
        c.coord(1) + face_step(edge_face_0(edge), 1) + face_step(edge_face_1(edge), 1),
        c.coord(2) + face_step(edge_face_0(edge), 2) + face_step(edge_face_1(edge), 2),
    );
    lemma_cell_toward_wf(
        c,
        c.coord(0) + face_step(vertex_face(vertex, 0), 0),
        c.coord(1) + face_step(vertex_face(vertex, 1), 1),
        c.coord(2) + face_step(vertex_face(vertex, 2), 2),
    );
    lemma_neighbor_search_held(
        octree,
        face_neighbor_cell(c, face),
        face_digits(face.opposite()),
        4,
        depth,
    );
    lemma_neighbor_search_held(
        octree,
        edge_neighbor_cell(c, edge),
        edge_digits(edge.twin()),
        2,
        depth,
    );
    lemma_neighbor_search_held(
        octree,
        vertex_neighbor_cell(c, vertex),
        vertex_digits(vertex_of((7 - vertex.repr()) as nat)),
        1,
        depth,
    );
}

} // verus!

//! Where the leaves found across a face, an edge or a vertex of a cell lie:
//! the cell across on the same level, an ancestor of it, or leaves inside
//! it on its side that faces the cell.
use vstd::prelude::*;
use crate::address::{pow8, lemma_pow8_adds, lemma_pow8_positive};
use crate::lod_octree::TerrainLodOctree;
use crate::morton_code::{MortonCode, code_on_level};
use crate::neighbor_query::{
    ancestor_in, descendants_in, children_found, neighbor_search, face_neighbor_cell,
    edge_neighbor_cell, vertex_neighbor_cell, face_neighbor_nodes, edge_neighbor_nodes,
    vertex_neighbor_nodes, face_digits, edge_digits, vertex_digits, lemma_cell_toward_wf,
};
use crate::address::face_step;
use crate::morton_code_neighbor::{edge_face_0, edge_face_1, vertex_face, edge_child_digit};
use crate::tables::{
    FaceIndex, EdgeIndex, VertexIndex, face_subnode, vertex_bit, first_other_axis,
    second_other_axis, vertex_of,
};
use crate::visit_order::{within, lemma_within_child};

verus! {

/// A cell within a cell within `a` lies within `a`.
proof fn lemma_within_trans(x: MortonCode, b: MortonCode, a: MortonCode)
    requires
        within(x, b),
        within(b, a),
    ensures
        within(x, a),
{
    let p = (x.level_spec() - b.level_spec()) as nat;
    let q = (b.level_spec() - a.level_spec()) as nat;
    lemma_pow8_adds(p, q);
    lemma_pow8_positive(p);
    lemma_pow8_positive(q);
    assert((x.level_spec() - a.level_spec()) as nat == p + q);
    vstd::arithmetic::div_mod::lemma_div_denominator(x.code_spec() as int, pow8(p) as int, pow8(q) as int);
}

/// The nearest held ancestor that a search finds lies above `c` and holds
/// it.
proof fn lemma_ancestor_in_holds(octree: TerrainLodOctree, c: MortonCode, depth: nat)
    requires
        c.wf(),
    ensures
        ancestor_in(octree, c, depth) matches Some(p) ==> p.wf() && p.level_spec() < c.level_spec()
            && within(c, p),
    decreases depth,
{
    if depth > 0 && c.level_spec() > 0 {
        let p = c.parent_spec();
        c.lemma_parent_spec();
        assert(pow8(1) == 8) by {
            assert(pow8(0) == 1);
        }
        assert((c.level_spec() - p.level_spec()) as nat == 1);
        assert(within(c, p));
        if !octree.has_node(p) {
            lemma_ancestor_in_holds(octree, p, (depth - 1) as nat);
            if let Some(a) = ancestor_in(octree, p, (depth - 1) as nat) {
                lemma_within_trans(c, p, a);
            }
        }
    }
}

/// Whether each of the first `count` digits is a child digit that `side_ok`
/// passes.
pub open spec fn digits_ok(digits: spec_fn(nat) -> nat, count: nat, side_ok: spec_fn(nat) -> bool) -> bool {
    forall|k: nat| k < count ==> #[trigger] digits(k) < 8 && side_ok(digits(k))
}

/// Whether `x` lies strictly inside `c`, on every level down from `c`
/// through a child that `side_ok` passes.
pub open spec fn inside_by(x: MortonCode, c: MortonCode, side_ok: spec_fn(nat) -> bool) -> bool {
    &&& x.wf()
    &&& x.level_spec() > c.level_spec()
    &&& within(x, c)
    &&& forall|l: nat|
        c.level_spec() < l <= x.level_spec() ==> side_ok(#[trigger] code_on_level(x, l) % 8)
}

proof fn lemma_descendants_inside(
    octree: TerrainLodOctree,
    c: MortonCode,
    digits: spec_fn(nat) -> nat,
    count: nat,
    depth: nat,
    side_ok: spec_fn(nat) -> bool,
)
    requires
        c.wf(),
        digits_ok(digits, count, side_ok),
    ensures
        forall|x: MortonCode|
            #[trigger] descendants_in(octree, c, digits, count, depth).contains(x) ==> inside_by(
                x,
                c,
                side_ok,
            ),
    decreases depth, 1nat, 0nat,
{
    if !(depth == 0 || c.level_spec() >= 21) {
        lemma_children_inside(octree, c, digits, count, depth, side_ok, count);
        assert(descendants_in(octree, c, digits, count, depth) == children_found(
            octree,
            c,
            digits,
            count,
            depth,
            count,
        ));
    } else {
        assert(descendants_in(octree, c, digits, count, depth) =~= Seq::<MortonCode>::empty());
    }
}

proof fn lemma_children_inside(
    octree: TerrainLodOctree,
    c: MortonCode,
    digits: spec_fn(nat) -> nat,
    count: nat,
    depth: nat,
    side_ok: spec_fn(nat) -> bool,
    k: nat,
)
    requires
        c.wf(),
        c.level_spec() < 21,
        digits_ok(digits, count, side_ok),
        k <= count,
    ensures
        forall|x: MortonCode|
            #[trigger] children_found(octree, c, digits, count, depth, k).contains(x) ==> inside_by(
                x,
                c,
                side_ok,
            ),
    decreases depth, 0nat, k,
{
    if !(k == 0 || depth == 0) {
        let j = (k - 1) as nat;
        lemma_children_inside(octree, c, digits, count, depth, side_ok, j);
        let d = digits(j);
        assert(d < 8 && side_ok(d));
        let child = c.child_spec(d);
        c.lemma_child_parent(d);
        assert(pow8(0) == 1);
        assert(pow8(1) == 8);
        assert((child.level_spec() - c.level_spec()) as nat == 1);
        assert((c.code_spec() * 8 + d) / 8 == c.code_spec());
        assert((c.code_spec() * 8 + d) % 8 == d);
        assert(within(child, c));
        assert((child.level_spec() - child.level_spec()) as nat == 0);
        assert(code_on_level(child, child.level_spec()) % 8 == d);
        if !octree.has_node(child) {
            lemma_descendants_inside(octree, child, digits, count, (depth - 1) as nat, side_ok);
        }
        assert forall|x: MortonCode| #[trigger] children_found(octree, c, digits, count, depth, k).contains(
            x,
        ) implies inside_by(x, c, side_ok) by {
            if !children_found(octree, c, digits, count, depth, j).contains(x) {
                if octree.has_node(child) {
                    assert(x == child);
                    assert forall|l: nat| c.level_spec() < l <= x.level_spec() implies side_ok(
                        #[trigger] code_on_level(x, l) % 8,
                    ) by {
                        assert(l == child.level_spec());
                    }
                } else {
                    assert(descendants_in(octree, child, digits, count, (depth - 1) as nat).contains(x));
                    assert(inside_by(x, child, side_ok));
                    lemma_within_child(x, c, d);
                    assert forall|l: nat| c.level_spec() < l <= x.level_spec() implies side_ok(
                        #[trigger] code_on_level(x, l) % 8,
                    ) by {
                        if l == child.level_spec() {
                            assert(code_on_level(x, l) == child.code_spec());
                        }
                    }
                }
            }
        }
    }
}

/// What a search finds for neighbour cell `n`: `n` itself, an ancestor of
/// it, or cells strictly inside it reached through children that
/// `side_ok` passes.
proof fn lemma_search_found(
    octree: TerrainLodOctree,
    n: Option<MortonCode>,
    digits: spec_fn(nat) -> nat,
    count: nat,
    depth: nat,
    side_ok: spec_fn(nat) -> bool,
)
    requires
        n matches Some(nb) ==> nb.wf(),
        digits_ok(digits, count, side_ok),
    ensures
        n is None ==> neighbor_search(octree, n, digits, count, depth) == Seq::<MortonCode>::empty(),
        n matches Some(nb) ==> (octree.has_node(nb) ==> neighbor_search(octree, n, digits, count, depth)
            == seq![nb]),
        n matches Some(nb) ==> forall|x: MortonCode|
            #[trigger] neighbor_search(octree, n, digits, count, depth).contains(x) ==> x == nb || (
            x.wf() && x.level_spec() < nb.level_spec() && within(nb, x)) || inside_by(x, nb, side_ok),
{
    if let Some(nb) = n {
        if !octree.has_node(nb) {
            lemma_ancestor_in_holds(octree, nb, depth);
            if ancestor_in(octree, nb, depth) is None {
                lemma_descendants_inside(octree, nb, digits, count, depth, side_ok);
            }
        }
    }
}

/// The children of a cell that touch the face opposite `face` sit on that
/// side.
proof fn lemma_face_digits(face: FaceIndex)
    ensures
        digits_ok(
            face_digits(face.opposite()),
            4,
            |d: nat| vertex_bit(d, face.axis()) == 1 - face.side(),
        ),
{
    let side_ok = |d: nat| vertex_bit(d, face.axis()) == 1 - face.side();
    assert forall|k: nat| k < 4 implies #[trigger] face_digits(face.opposite())(k) < 8 && side_ok(
        face_digits(face.opposite())(k),
    ) by {
        assert(k == 0 || k == 1 || k == 2 || k == 3);
        assert(face_digits(face.opposite())(k) == face_subnode(face.opposite(), k));
    }
}

/// The children of a cell that touch the edge across from `edge` sit on
/// that edge's sides.
proof fn lemma_edge_digits(edge: EdgeIndex)
    ensures
        digits_ok(
            edge_digits(edge.twin()),
            2,
            |d: nat|
                vertex_bit(d, first_other_axis(edge.axis())) == 1 - edge.first_side() && vertex_bit(
                    d,
                    second_other_axis(edge.axis()),
                ) == 1 - edge.second_side(),
        ),
{
    let side_ok = |d: nat|
        vertex_bit(d, first_other_axis(edge.axis())) == 1 - edge.first_side() && vertex_bit(
            d,
            second_other_axis(edge.axis()),
        ) == 1 - edge.second_side();
    assert forall|k: nat| k < 2 implies #[trigger] edge_digits(edge.twin())(k) < 8 && side_ok(
        edge_digits(edge.twin())(k),
    ) by {
        assert(k == 0 || k == 1);
        assert(edge_digits(edge.twin())(k) == edge_child_digit(edge.twin(), k as int));
        match edge {
            EdgeIndex::XAxisY0Z0 => {},
            EdgeIndex::XAxisY1Z0 => {},
            EdgeIndex::XAxisY0Z1 => {},
            EdgeIndex::XAxisY1Z1 => {},
            EdgeIndex::YAxisX0Z0 => {},
            EdgeIndex::YAxisX1Z0 => {},
            EdgeIndex::YAxisX0Z1 => {},
            EdgeIndex::YAxisX1Z1 => {},
            EdgeIndex::ZAxisX0Y0 => {},
            EdgeIndex::ZAxisX1Y0 => {},
            EdgeIndex::ZAxisX0Y1 => {},
            EdgeIndex::ZAxisX1Y1 => {},
        }
    }
}

/// The child of a cell at the vertex across from `vertex`.
proof fn lemma_vertex_digits(vertex: VertexIndex)
    ensures
        digits_ok(
            vertex_digits(vertex_of((7 - vertex.repr()) as nat)),
            1,
            |d: nat| d == 7 - vertex.repr(),
        ),
{
    let side_ok = |d: nat| d == 7 - vertex.repr();
    assert forall|k: nat| k < 1 implies #[trigger] vertex_digits(vertex_of((7 - vertex.repr()) as nat))(
        k,
    ) < 8 && side_ok(vertex_digits(vertex_of((7 - vertex.repr()) as nat))(k)) by {
        assert(vertex_digits(vertex_of((7 - vertex.repr()) as nat))(k) == vertex_of(
            (7 - vertex.repr()) as nat,
        ).repr());
    }
}

/// The leaves found across `face` of a valid cell `c`: none where no cell
/// lies across on `c`'s level; that cell alone where the octree holds it;
/// else an ancestor of it, or leaves inside it that lie, on every level
/// down from it, on its side that faces `c`.
pub proof fn lemma_face_neighbor_nodes_touch(
    octree: TerrainLodOctree,
    c: MortonCode,
    face: FaceIndex,
    depth: nat,
)
    requires
        c.wf(),
    ensures
        face_neighbor_cell(c, face) is None ==> face_neighbor_nodes(octree, c, face, depth)
            == Seq::<MortonCode>::empty(),
        face_neighbor_cell(c, face) matches Some(nb) ==> {
            &&& octree.has_node(nb) ==> face_neighbor_nodes(octree, c, face, depth) == seq![nb]
            &&& forall|x: MortonCode|
                #[trigger] face_neighbor_nodes(octree, c, face, depth).contains(x) ==> x == nb || (
                x.wf() && x.level_spec() < nb.level_spec() && within(nb, x)) || (x.wf()
                && x.level_spec() > nb.level_spec() && within(x, nb) && forall|l: nat|
                nb.level_spec() < l <= x.level_spec() ==> vertex_bit(
                    #[trigger] code_on_level(x, l) % 8,
                    face.axis(),
                ) == 1 - face.side())
        },
{
    lemma_cell_toward_wf(
        c,
        c.coord(0) + face_step(face, 0),
        c.coord(1) + face_step(face, 1),
        c.coord(2) + face_step(face, 2),
    );
    let side_ok = |d: nat| vertex_bit(d, face.axis()) == 1 - face.side();
    lemma_face_digits(face);
    lemma_search_found(
        octree,
        face_neighbor_cell(c, face),
        face_digits(face.opposite()),
        4,
        depth,
        side_ok,
    );
}

/// The leaves found across `edge` of a valid cell `c`: none where no cell
/// lies across on `c`'s level; that cell alone where the octree holds it;
/// else an ancestor of it, or leaves inside it that lie, on every level
/// down from it, along its edge that faces `c`.
pub proof fn lemma_edge_neighbor_nodes_touch(
    octree: TerrainLodOctree,
    c: MortonCode,
    edge: EdgeIndex,
    depth: nat,
)
    requires
        c.wf(),
    ensures
        edge_neighbor_cell(c, edge) is None ==> edge_neighbor_nodes(octree, c, edge, depth)
            == Seq::<MortonCode>::empty(),
        edge_neighbor_cell(c, edge) matches Some(nb) ==> {
            &&& octree.has_node(nb) ==> edge_neighbor_nodes(octree, c, edge, depth) == seq![nb]
            &&& forall|x: MortonCode|
                #[trigger] edge_neighbor_nodes(octree, c, edge, depth).contains(x) ==> x == nb || (
                x.wf() && x.level_spec() < nb.level_spec() && within(nb, x)) || (x.wf()
                && x.level_spec() > nb.level_spec() && within(x, nb) && forall|l: nat|
                nb.level_spec() < l <= x.level_spec() ==> vertex_bit(
                    #[trigger] code_on_level(x, l) % 8,
                    first_other_axis(edge.axis()),
                ) == 1 - edge.first_side() && vertex_bit(
                    code_on_level(x, l) % 8,
                    second_other_axis(edge.axis()),
                ) == 1 - edge.second_side())
        },
{
    lemma_cell_toward_wf(
        c,
        c.coord(0) + face_step(edge_face_0(edge), 0) + face_step(edge_face_1(edge), 0),
        c.coord(1) + face_step(edge_face_0(edge), 1) + face_step(edge_face_1(edge), 1),
        c.coord(2) + face_step(edge_face_0(edge), 2) + face_step(edge_face_1(edge), 2),
    );
    let side_ok = |d: nat|
        vertex_bit(d, first_other_axis(edge.axis())) == 1 - edge.first_side() && vertex_bit(
            d,
            second_other_axis(edge.axis()),
        ) == 1 - edge.second_side();
    lemma_edge_digits(edge);
    lemma_search_found(octree, edge_neighbor_cell(c, edge), edge_digits(edge.twin()), 2, depth, side_ok);
}

/// The leaves found across `vertex` of a valid cell `c`: none where no cell
/// lies across on `c`'s level; that cell alone where the octree holds it;
/// else an ancestor of it, or leaves inside it that lie, on every level
/// down from it, at its corner that faces `c`.
pub proof fn lemma_vertex_neighbor_nodes_touch(
    octree: TerrainLodOctree,
    c: MortonCode,
    vertex: VertexIndex,
    depth: nat,
)
    requires
        c.wf(),
    ensures
        vertex_neighbor_cell(c, vertex) is None ==> vertex_neighbor_nodes(octree, c, vertex, depth)
            == Seq::<MortonCode>::empty(),
        vertex_neighbor_cell(c, vertex) matches Some(nb) ==> {
            &&& octree.has_node(nb) ==> vertex_neighbor_nodes(octree, c, vertex, depth) == seq![nb]
            &&& forall|x: MortonCode|
                #[trigger] vertex_neighbor_nodes(octree, c, vertex, depth).contains(x) ==> x == nb
                    || (x.wf() && x.level_spec() < nb.level_spec() && within(nb, x)) || (x.wf()
                    && x.level_spec() > nb.level_spec() && within(x, nb) && forall|l: nat|
                    nb.level_spec() < l <= x.level_spec() ==> #[trigger] code_on_level(x, l) % 8 == 7
                        - vertex.repr())
        },
{
    lemma_cell_toward_wf(
        c,
        c.coord(0) + face_step(vertex_face(vertex, 0), 0),
        c.coord(1) + face_step(vertex_face(vertex, 1), 1),
        c.coord(2) + face_step(vertex_face(vertex, 2), 2),
    );
    let side_ok = |d: nat| d == 7 - vertex.repr();
    lemma_vertex_digits(vertex);
    lemma_search_found(
        octree,
        vertex_neighbor_cell(c, vertex),
        vertex_digits(vertex_of((7 - vertex.repr()) as nat)),
        1,
        depth,
        side_ok,
    );
}

} // verus!

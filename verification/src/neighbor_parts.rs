//! What the searches over several sides of a cell gather: each search over
//! one face, edge or vertex that they are made of, whole and in one piece,
//! and nothing else.
use vstd::prelude::*;
use crate::lod_octree::TerrainLodOctree;
use crate::morton_code::MortonCode;
use crate::neighbor_query::{
    face_neighbor_nodes, edge_neighbor_nodes, vertex_neighbor_nodes, positive_direction_nodes,
    negative_direction_nodes, all_neighbor_nodes,
};
use crate::tables::{FaceIndex, EdgeIndex, VertexIndex};

verus! {

/// Whether `p` stands in `s` in one piece.
pub open spec fn is_part(s: Seq<MortonCode>, p: Seq<MortonCode>) -> bool {
    exists|i: int| 0 <= i && i + p.len() <= s.len() && #[trigger] s.subrange(i, i + p.len()) == p
}

/// The parts `ps` one after the other.
spec fn joined(ps: Seq<Seq<MortonCode>>) -> Seq<MortonCode>
    decreases ps.len(),
{
    if ps.len() == 0 {
        Seq::empty()
    } else {
        joined(ps.drop_last()) + ps.last()
    }
}

proof fn lemma_joined_push(ps: Seq<Seq<MortonCode>>, x: Seq<MortonCode>)
    ensures
        joined(ps.push(x)) == joined(ps) + x,
{
    assert(ps.push(x).drop_last() =~= ps);
}

/// Each part stands in one piece in the parts joined.
proof fn lemma_joined_part(ps: Seq<Seq<MortonCode>>, k: int)
    requires
        0 <= k < ps.len(),
    ensures
        is_part(joined(ps), ps[k]),
    decreases ps.len(),
{
    let a = joined(ps.drop_last());
    let b = ps.last();
    if k == ps.len() - 1 {
        assert((a + b).subrange(a.len() as int, (a.len() + b.len()) as int) =~= b);
    } else {
        assert(ps.drop_last()[k] == ps[k]);
        lemma_joined_part(ps.drop_last(), k);
        let i = choose|i: int|
            0 <= i && i + ps[k].len() <= a.len() && #[trigger] a.subrange(i, i + ps[k].len()) == ps[k];
        assert((a + b).subrange(i, i + ps[k].len()) =~= a.subrange(i, i + ps[k].len()));
    }
}

/// What the parts joined hold comes from one of them.
proof fn lemma_joined_member(ps: Seq<Seq<MortonCode>>, x: MortonCode)
    requires
        joined(ps).contains(x),
    ensures
        exists|k: int| 0 <= k < ps.len() && #[trigger] ps[k].contains(x),
    decreases ps.len(),
{
    let a = joined(ps.drop_last());
    let b = ps.last();
    let j = choose|j: int| 0 <= j < (a + b).len() && (a + b)[j] == x;
    if j < a.len() {
        assert(a[j] == x);
        lemma_joined_member(ps.drop_last(), x);
        let k = choose|k: int| 0 <= k < ps.drop_last().len() && #[trigger] ps.drop_last()[k].contains(x);
        assert(ps[k] == ps.drop_last()[k]);
    } else {
        assert(b[j - a.len()] == x);
        assert(ps[ps.len() - 1].contains(x));
    }
}

/// The leaves found across the six faces, counted together.
pub open spec fn faces_found_len(octree: TerrainLodOctree, c: MortonCode, depth: nat) -> nat {
    face_neighbor_nodes(octree, c, FaceIndex::Left, depth).len() + face_neighbor_nodes(
        octree,
        c,
        FaceIndex::Right,
        depth,
    ).len() + face_neighbor_nodes(octree, c, FaceIndex::Bottom, depth).len() + face_neighbor_nodes(
        octree,
        c,
        FaceIndex::Top,
        depth,
    ).len() + face_neighbor_nodes(octree, c, FaceIndex::Back, depth).len() + face_neighbor_nodes(
        octree,
        c,
        FaceIndex::Front,
        depth,
    ).len()
}

/// The leaves found across the twelve edges, counted together.
pub open spec fn edges_found_len(octree: TerrainLodOctree, c: MortonCode, depth: nat) -> nat {
    edge_neighbor_nodes(octree, c, EdgeIndex::XAxisY0Z0, depth).len() + edge_neighbor_nodes(
        octree,
        c,
        EdgeIndex::XAxisY1Z0,
        depth,
    ).len() + edge_neighbor_nodes(octree, c, EdgeIndex::XAxisY0Z1, depth).len()
        + edge_neighbor_nodes(octree, c, EdgeIndex::XAxisY1Z1, depth).len() + edge_neighbor_nodes(
        octree,
        c,
        EdgeIndex::YAxisX0Z0,
        depth,
    ).len() + edge_neighbor_nodes(octree, c, EdgeIndex::YAxisX1Z0, depth).len()
        + edge_neighbor_nodes(octree, c, EdgeIndex::YAxisX0Z1, depth).len() + edge_neighbor_nodes(
        octree,
        c,
        EdgeIndex::YAxisX1Z1,
        depth,
    ).len() + edge_neighbor_nodes(octree, c, EdgeIndex::ZAxisX0Y0, depth).len()
        + edge_neighbor_nodes(octree, c, EdgeIndex::ZAxisX1Y0, depth).len() + edge_neighbor_nodes(
        octree,
        c,
        EdgeIndex::ZAxisX0Y1,
        depth,
    ).len() + edge_neighbor_nodes(octree, c, EdgeIndex::ZAxisX1Y1, depth).len()
}

/// The search of every face and of every edge of `c` stands whole, in one
/// piece, in the leaves around `c`; those hold nothing that no face or edge
/// search finds, and as many leaves as all those searches together.
pub proof fn lemma_all_neighbor_nodes_searches(octree: TerrainLodOctree, c: MortonCode, depth: nat)
    ensures
        forall|f: FaceIndex|
            is_part(all_neighbor_nodes(octree, c, depth), #[trigger] face_neighbor_nodes(octree, c, f, depth)),
        forall|e: EdgeIndex|
            is_part(all_neighbor_nodes(octree, c, depth), #[trigger] edge_neighbor_nodes(octree, c, e, depth)),
        forall|x: MortonCode|
            #[trigger] all_neighbor_nodes(octree, c, depth).contains(x) ==> (exists|f: FaceIndex|
                #[trigger] face_neighbor_nodes(octree, c, f, depth).contains(x)) || (exists|e: EdgeIndex|
                #[trigger] edge_neighbor_nodes(octree, c, e, depth).contains(x)),
        all_neighbor_nodes(octree, c, depth).len() == faces_found_len(octree, c, depth) + edges_found_len(
            octree,
            c,
            depth,
        ),
{
    let fr = face_neighbor_nodes(octree, c, FaceIndex::Right, depth);
    let ff = face_neighbor_nodes(octree, c, FaceIndex::Front, depth);
    let ft = face_neighbor_nodes(octree, c, FaceIndex::Top, depth);
    let fl = face_neighbor_nodes(octree, c, FaceIndex::Left, depth);
    let fb = face_neighbor_nodes(octree, c, FaceIndex::Back, depth);
    let fo = face_neighbor_nodes(octree, c, FaceIndex::Bottom, depth);
    let e0 = edge_neighbor_nodes(octree, c, EdgeIndex::XAxisY1Z1, depth);
    let e1 = edge_neighbor_nodes(octree, c, EdgeIndex::YAxisX1Z1, depth);
    let e2 = edge_neighbor_nodes(octree, c, EdgeIndex::ZAxisX1Y1, depth);
    let e3 = edge_neighbor_nodes(octree, c, EdgeIndex::XAxisY0Z0, depth);
    let e4 = edge_neighbor_nodes(octree, c, EdgeIndex::YAxisX0Z0, depth);
    let e5 = edge_neighbor_nodes(octree, c, EdgeIndex::ZAxisX0Y0, depth);
    let e6 = edge_neighbor_nodes(octree, c, EdgeIndex::XAxisY0Z1, depth);
    let e7 = edge_neighbor_nodes(octree, c, EdgeIndex::YAxisX0Z1, depth);
    let e8 = edge_neighbor_nodes(octree, c, EdgeIndex::ZAxisX0Y1, depth);
    let e9 = edge_neighbor_nodes(octree, c, EdgeIndex::XAxisY1Z0, depth);
    let e10 = edge_neighbor_nodes(octree, c, EdgeIndex::YAxisX1Z0, depth);
    let e11 = edge_neighbor_nodes(octree, c, EdgeIndex::ZAxisX1Y0, depth);
    let p0 = Seq::<Seq<MortonCode>>::empty();
    let p1 = p0.push(fr);
    let p2 = p1.push(ff);
    let p3 = p2.push(ft);
    let p4 = p3.push(fl);
    let p5 = p4.push(fb);
    let p6 = p5.push(fo);
    let p7 = p6.push(e0);
    let p8 = p7.push(e1);
    let p9 = p8.push(e2);
    let p10 = p9.push(e3);
    let p11 = p10.push(e4);
    let p12 = p11.push(e5);
    let p13 = p12.push(e6);
    let p14 = p13.push(e7);
    let p15 = p14.push(e8);
    let p16 = p15.push(e9);
    let p17 = p16.push(e10);
    let ps = p17.push(e11);
    lemma_joined_push(p0, fr);
    assert(joined(p0) + fr =~= fr);
    lemma_joined_push(p1, ff);
    lemma_joined_push(p2, ft);
    lemma_joined_push(p3, fl);
    lemma_joined_push(p4, fb);
    lemma_joined_push(p5, fo);
    lemma_joined_push(p6, e0);
    lemma_joined_push(p7, e1);
    lemma_joined_push(p8, e2);
    lemma_joined_push(p9, e3);
    lemma_joined_push(p10, e4);
    lemma_joined_push(p11, e5);
    lemma_joined_push(p12, e6);
    lemma_joined_push(p13, e7);
    lemma_joined_push(p14, e8);
    lemma_joined_push(p15, e9);
    lemma_joined_push(p16, e10);
    lemma_joined_push(p17, e11);
    let all = all_neighbor_nodes(octree, c, depth);
    assert(joined(ps) == all);
    assert(ps[0] == fr && ps[1] == ff && ps[2] == ft && ps[3] == fl && ps[4] == fb && ps[5] == fo);
    assert(ps[6] == e0 && ps[7] == e1 && ps[8] == e2 && ps[9] == e3 && ps[10] == e4 && ps[11]
        == e5);
    assert(ps[12] == e6 && ps[13] == e7 && ps[14] == e8 && ps[15] == e9 && ps[16] == e10 && ps[17]
        == e11);
    assert forall|f: FaceIndex| is_part(all, #[trigger] face_neighbor_nodes(octree, c, f, depth)) by {
        let k: int = match f {
            FaceIndex::Right => 0,
            FaceIndex::Front => 1,
            FaceIndex::Top => 2,
            FaceIndex::Left => 3,
            FaceIndex::Back => 4,
            FaceIndex::Bottom => 5,
        };
        lemma_joined_part(ps, k);
    }
    assert forall|e: EdgeIndex| is_part(all, #[trigger] edge_neighbor_nodes(octree, c, e, depth)) by {
        let k: int = match e {
            EdgeIndex::XAxisY1Z1 => 6,
            EdgeIndex::YAxisX1Z1 => 7,
            EdgeIndex::ZAxisX1Y1 => 8,
            EdgeIndex::XAxisY0Z0 => 9,
            EdgeIndex::YAxisX0Z0 => 10,
            EdgeIndex::ZAxisX0Y0 => 11,
            EdgeIndex::XAxisY0Z1 => 12,
            EdgeIndex::YAxisX0Z1 => 13,
            EdgeIndex::ZAxisX0Y1 => 14,
            EdgeIndex::XAxisY1Z0 => 15,
            EdgeIndex::YAxisX1Z0 => 16,
            EdgeIndex::ZAxisX1Y0 => 17,
        };
        lemma_joined_part(ps, k);
    }
    assert forall|x: MortonCode| #[trigger] all.contains(x) implies (exists|f: FaceIndex|
        #[trigger] face_neighbor_nodes(octree, c, f, depth).contains(x)) || (exists|e: EdgeIndex|
        #[trigger] edge_neighbor_nodes(octree, c, e, depth).contains(x)) by {
        lemma_joined_member(ps, x);
        let k = choose|k: int| 0 <= k < ps.len() && #[trigger] ps[k].contains(x);
        if k < 6 {
            let f = if k == 0 {
                FaceIndex::Right
            } else if k == 1 {
                FaceIndex::Front
            } else if k == 2 {
                FaceIndex::Top
            } else if k == 3 {
                FaceIndex::Left
            } else if k == 4 {
                FaceIndex::Back
            } else {
                FaceIndex::Bottom
            };
            assert(face_neighbor_nodes(octree, c, f, depth).contains(x));
        } else {
            let e = if k == 6 {
                EdgeIndex::XAxisY1Z1
            } else if k == 7 {
                EdgeIndex::YAxisX1Z1
            } else if k == 8 {
                EdgeIndex::ZAxisX1Y1
            } else if k == 9 {
                EdgeIndex::XAxisY0Z0
            } else if k == 10 {
                EdgeIndex::YAxisX0Z0
            } else if k == 11 {
                EdgeIndex::ZAxisX0Y0
            } else if k == 12 {
                EdgeIndex::XAxisY0Z1
            } else if k == 13 {
                EdgeIndex::YAxisX0Z1
            } else if k == 14 {
                EdgeIndex::ZAxisX0Y1
            } else if k == 15 {
                EdgeIndex::XAxisY1Z0
            } else if k == 16 {
                EdgeIndex::YAxisX1Z0
            } else {
                EdgeIndex::ZAxisX1Y0
            };
            assert(edge_neighbor_nodes(octree, c, e, depth).contains(x));
        }
    }
}


/// The leaves on the positive sides of `c` hold the search of each face on
/// a positive side (right, top, front) and of each edge where two of those
/// meet, whole and in one piece; nothing that none of those searches finds;
/// and as many leaves as those searches together.
pub proof fn lemma_positive_direction_nodes_searches(octree: TerrainLodOctree, c: MortonCode, depth: nat)
    ensures
        forall|f: FaceIndex|
            f.side() == 1 ==> is_part(
                positive_direction_nodes(octree, c, depth),
                #[trigger] face_neighbor_nodes(octree, c, f, depth),
            ),
        forall|e: EdgeIndex|
            e.first_side() == 1 && e.second_side() == 1 ==> is_part(
                positive_direction_nodes(octree, c, depth),
                #[trigger] edge_neighbor_nodes(octree, c, e, depth),
            ),
        forall|x: MortonCode|
            #[trigger] positive_direction_nodes(octree, c, depth).contains(x) ==> (exists|f: FaceIndex|
                f.side() == 1 && #[trigger] face_neighbor_nodes(octree, c, f, depth).contains(x)) || (
            exists|e: EdgeIndex|
                e.first_side() == 1 && e.second_side() == 1 && #[trigger] edge_neighbor_nodes(
                    octree,
                    c,
                    e,
                    depth,
                ).contains(x)),
        positive_direction_nodes(octree, c, depth).len() == face_neighbor_nodes(
            octree,
            c,
            FaceIndex::Right,
            depth,
        ).len() + face_neighbor_nodes(octree, c, FaceIndex::Top, depth).len() + face_neighbor_nodes(
            octree,
            c,
            FaceIndex::Front,
            depth,
        ).len() + edge_neighbor_nodes(octree, c, EdgeIndex::XAxisY1Z1, depth).len()
            + edge_neighbor_nodes(octree, c, EdgeIndex::YAxisX1Z1, depth).len() + edge_neighbor_nodes(
            octree,
            c,
            EdgeIndex::ZAxisX1Y1,
            depth,
        ).len(),
{
    let fr = face_neighbor_nodes(octree, c, FaceIndex::Right, depth);
    let ff = face_neighbor_nodes(octree, c, FaceIndex::Front, depth);
    let ft = face_neighbor_nodes(octree, c, FaceIndex::Top, depth);
    let e0 = edge_neighbor_nodes(octree, c, EdgeIndex::XAxisY1Z1, depth);
    let e1 = edge_neighbor_nodes(octree, c, EdgeIndex::YAxisX1Z1, depth);
    let e2 = edge_neighbor_nodes(octree, c, EdgeIndex::ZAxisX1Y1, depth);
    let p0 = Seq::<Seq<MortonCode>>::empty();
    let p1 = p0.push(fr);
    let p2 = p1.push(ff);
    let p3 = p2.push(ft);
    let p4 = p3.push(e0);
    let p5 = p4.push(e1);
    let ps = p5.push(e2);
    lemma_joined_push(p0, fr);
    assert(joined(p0) + fr =~= fr);
    lemma_joined_push(p1, ff);
    lemma_joined_push(p2, ft);
    lemma_joined_push(p3, e0);
    lemma_joined_push(p4, e1);
    lemma_joined_push(p5, e2);
    let pos = positive_direction_nodes(octree, c, depth);
    assert(joined(ps) == pos);
    assert(ps[0] == fr && ps[1] == ff && ps[2] == ft && ps[3] == e0 && ps[4] == e1 && ps[5] == e2);
    assert forall|f: FaceIndex| f.side() == 1 implies is_part(
        pos,
        #[trigger] face_neighbor_nodes(octree, c, f, depth),
    ) by {
        let k: int = match f {
            FaceIndex::Right => 0,
            FaceIndex::Front => 1,
            _ => 2,
        };
        lemma_joined_part(ps, k);
    }
    assert forall|e: EdgeIndex| e.first_side() == 1 && e.second_side() == 1 implies is_part(
        pos,
        #[trigger] edge_neighbor_nodes(octree, c, e, depth),
    ) by {
        let k: int = match e {
            EdgeIndex::XAxisY1Z1 => 3,
            EdgeIndex::YAxisX1Z1 => 4,
            _ => 5,
        };
        lemma_joined_part(ps, k);
    }
    assert forall|x: MortonCode| #[trigger] pos.contains(x) implies (exists|f: FaceIndex|
        f.side() == 1 && #[trigger] face_neighbor_nodes(octree, c, f, depth).contains(x)) || (exists|
        e: EdgeIndex|
        e.first_side() == 1 && e.second_side() == 1 && #[trigger] edge_neighbor_nodes(
            octree,
            c,
            e,
            depth,
        ).contains(x)) by {
        lemma_joined_member(ps, x);
        let k = choose|k: int| 0 <= k < ps.len() && #[trigger] ps[k].contains(x);
        if k < 3 {
            let f = if k == 0 {
                FaceIndex::Right
            } else if k == 1 {
                FaceIndex::Front
            } else {
                FaceIndex::Top
            };
            assert(f.side() == 1 && face_neighbor_nodes(octree, c, f, depth).contains(x));
        } else {
            let e = if k == 3 {
                EdgeIndex::XAxisY1Z1
            } else if k == 4 {
                EdgeIndex::YAxisX1Z1
            } else {
                EdgeIndex::ZAxisX1Y1
            };
            assert(e.first_side() == 1 && e.second_side() == 1 && edge_neighbor_nodes(
                octree,
                c,
                e,
                depth,
            ).contains(x));
        }
    }
}

/// The leaves on the negative sides of `c` hold the search of each face on
/// a negative side (left, bottom, back), of each edge where two of those
/// meet and of the vertex where all three meet, whole and in one piece;
/// nothing that none of those searches finds; and as many leaves as those
/// searches together.
pub proof fn lemma_negative_direction_nodes_searches(octree: TerrainLodOctree, c: MortonCode, depth: nat)
    ensures
        forall|f: FaceIndex|
            f.side() == 0 ==> is_part(
                negative_direction_nodes(octree, c, depth),
                #[trigger] face_neighbor_nodes(octree, c, f, depth),
            ),
        forall|e: EdgeIndex|
            e.first_side() == 0 && e.second_side() == 0 ==> is_part(
                negative_direction_nodes(octree, c, depth),
                #[trigger] edge_neighbor_nodes(octree, c, e, depth),
            ),
        is_part(
            negative_direction_nodes(octree, c, depth),
            vertex_neighbor_nodes(octree, c, VertexIndex::X0Y0Z0, depth),
        ),
        forall|x: MortonCode|
            #[trigger] negative_direction_nodes(octree, c, depth).contains(x) ==> (exists|f: FaceIndex|
                f.side() == 0 && #[trigger] face_neighbor_nodes(octree, c, f, depth).contains(x)) || (
            exists|e: EdgeIndex|
                e.first_side() == 0 && e.second_side() == 0 && #[trigger] edge_neighbor_nodes(
                    octree,
                    c,
                    e,
                    depth,
                ).contains(x)) || vertex_neighbor_nodes(octree, c, VertexIndex::X0Y0Z0, depth).contains(
                x,
            ),
        negative_direction_nodes(octree, c, depth).len() == face_neighbor_nodes(
            octree,
            c,
            FaceIndex::Left,
            depth,
        ).len() + face_neighbor_nodes(octree, c, FaceIndex::Bottom, depth).len() + face_neighbor_nodes(
            octree,
            c,
            FaceIndex::Back,
            depth,
        ).len() + edge_neighbor_nodes(octree, c, EdgeIndex::XAxisY0Z0, depth).len()
            + edge_neighbor_nodes(octree, c, EdgeIndex::YAxisX0Z0, depth).len() + edge_neighbor_nodes(
            octree,
            c,
            EdgeIndex::ZAxisX0Y0,
            depth,
        ).len() + vertex_neighbor_nodes(octree, c, VertexIndex::X0Y0Z0, depth).len(),
{
    let fl = face_neighbor_nodes(octree, c, FaceIndex::Left, depth);
    let fb = face_neighbor_nodes(octree, c, FaceIndex::Back, depth);
    let fo = face_neighbor_nodes(octree, c, FaceIndex::Bottom, depth);
    let e0 = edge_neighbor_nodes(octree, c, EdgeIndex::XAxisY0Z0, depth);
    let e1 = edge_neighbor_nodes(octree, c, EdgeIndex::YAxisX0Z0, depth);
    let e2 = edge_neighbor_nodes(octree, c, EdgeIndex::ZAxisX0Y0, depth);
    let v0 = vertex_neighbor_nodes(octree, c, VertexIndex::X0Y0Z0, depth);
    let p0 = Seq::<Seq<MortonCode>>::empty();
    let p1 = p0.push(fl);
    let p2 = p1.push(fb);
    let p3 = p2.push(fo);
    let p4 = p3.push(e0);
    let p5 = p4.push(e1);
    let p6 = p5.push(e2);
    let ps = p6.push(v0);
    lemma_joined_push(p0, fl);
    assert(joined(p0) + fl =~= fl);
    lemma_joined_push(p1, fb);
    lemma_joined_push(p2, fo);
    lemma_joined_push(p3, e0);
    lemma_joined_push(p4, e1);
    lemma_joined_push(p5, e2);
    lemma_joined_push(p6, v0);
    let neg = negative_direction_nodes(octree, c, depth);
    assert(joined(ps) == neg);
    assert(ps[0] == fl && ps[1] == fb && ps[2] == fo && ps[3] == e0 && ps[4] == e1 && ps[5] == e2
        && ps[6] == v0);
    assert forall|f: FaceIndex| f.side() == 0 implies is_part(
        neg,
        #[trigger] face_neighbor_nodes(octree, c, f, depth),
    ) by {
        let k: int = match f {
            FaceIndex::Left => 0,
            FaceIndex::Back => 1,
            _ => 2,
        };
        lemma_joined_part(ps, k);
    }
    assert forall|e: EdgeIndex| e.first_side() == 0 && e.second_side() == 0 implies is_part(
        neg,
        #[trigger] edge_neighbor_nodes(octree, c, e, depth),
    ) by {
        let k: int = match e {
            EdgeIndex::XAxisY0Z0 => 3,
            EdgeIndex::YAxisX0Z0 => 4,
            _ => 5,
        };
        lemma_joined_part(ps, k);
    }
    lemma_joined_part(ps, 6);
    assert forall|x: MortonCode| #[trigger] neg.contains(x) implies (exists|f: FaceIndex|
        f.side() == 0 && #[trigger] face_neighbor_nodes(octree, c, f, depth).contains(x)) || (exists|
        e: EdgeIndex|
        e.first_side() == 0 && e.second_side() == 0 && #[trigger] edge_neighbor_nodes(
            octree,
            c,
            e,
            depth,
        ).contains(x)) || v0.contains(x) by {
        lemma_negative_member(octree, c, depth, x);
    }
}

/// What the leaves on the negative sides hold comes from the search of a
/// negative face, of an edge where two meet or of the vertex where all
/// three meet.
proof fn lemma_negative_member(octree: TerrainLodOctree, c: MortonCode, depth: nat, x: MortonCode)
    requires
        negative_direction_nodes(octree, c, depth).contains(x),
    ensures
        (exists|f: FaceIndex|
            f.side() == 0 && #[trigger] face_neighbor_nodes(octree, c, f, depth).contains(x)) || (exists|
            e: EdgeIndex|
            e.first_side() == 0 && e.second_side() == 0 && #[trigger] edge_neighbor_nodes(
                octree,
                c,
                e,
                depth,
            ).contains(x)) || vertex_neighbor_nodes(octree, c, VertexIndex::X0Y0Z0, depth).contains(x),
{
    let fl = face_neighbor_nodes(octree, c, FaceIndex::Left, depth);
    let fb = face_neighbor_nodes(octree, c, FaceIndex::Back, depth);
    let fo = face_neighbor_nodes(octree, c, FaceIndex::Bottom, depth);
    let e0 = edge_neighbor_nodes(octree, c, EdgeIndex::XAxisY0Z0, depth);
    let e1 = edge_neighbor_nodes(octree, c, EdgeIndex::YAxisX0Z0, depth);
    let e2 = edge_neighbor_nodes(octree, c, EdgeIndex::ZAxisX0Y0, depth);
    let v0 = vertex_neighbor_nodes(octree, c, VertexIndex::X0Y0Z0, depth);
    let neg = negative_direction_nodes(octree, c, depth);
    let k: int = if fl.contains(x) {
        0
    } else if fb.contains(x) {
        1
    } else if fo.contains(x) {
        2
    } else if e0.contains(x) {
        3
    } else if e1.contains(x) {
        4
    } else if e2.contains(x) {
        5
    } else {
        6
    };
    let j = choose|j: int| 0 <= j < neg.len() && neg[j] == x;
    if k == 6 {
        assert(v0.contains(x)) by {
            assert(neg == fl + fb + fo + e0 + e1 + e2 + v0);
            let a = fl + fb + fo + e0 + e1 + e2;
            if j < a.len() {
                assert(a[j] == x);
                let b = fl + fb + fo + e0 + e1;
                if j < b.len() {
                    assert(b[j] == x);
                    let d = fl + fb + fo + e0;
                    if j < d.len() {
                        assert(d[j] == x);
                        let g = fl + fb + fo;
                        if j < g.len() {
                            assert(g[j] == x);
                            let h = fl + fb;
                            if j < h.len() {
                                assert(h[j] == x);
                                if j < fl.len() {
                                    assert(fl[j] == x);
                                } else {
                                    assert(fb[j - fl.len()] == x);
                                }
                            } else {
                                assert(fo[j - h.len()] == x);
                            }
                        } else {
                            assert(e0[j - g.len()] == x);
                        }
                    } else {
                        assert(e1[j - d.len()] == x);
                    }
                } else {
                    assert(e2[j - b.len()] == x);
                }
            } else {
                assert(v0[j - a.len()] == x);
            }
        }
    } else if k == 0 {
        assert(FaceIndex::Left.side() == 0);
    } else if k == 1 {
        assert(FaceIndex::Back.side() == 0);
    } else if k == 2 {
        assert(FaceIndex::Bottom.side() == 0);
    } else if k == 3 {
        assert(EdgeIndex::XAxisY0Z0.first_side() == 0 && EdgeIndex::XAxisY0Z0.second_side() == 0);
    } else if k == 4 {
        assert(EdgeIndex::YAxisX0Z0.first_side() == 0 && EdgeIndex::YAxisX0Z0.second_side() == 0);
    } else {
        assert(EdgeIndex::ZAxisX0Y0.first_side() == 0 && EdgeIndex::ZAxisX0Y0.second_side() == 0);
    }
}

} // verus!

//! Triangle indices of the seam mesh between neighbouring chunks.
//!
//! A seam is a slab two voxels thick along one axis and `voxel_num + 1`
//! voxels wide along the other two. Each seam voxel owns at most one mesh
//! vertex (`mesh_vertex_map`, `U32_MAX` where it has none). For each of its
//! three far edges that crosses the isosurface, the four voxels around the
//! edge give a triangle or a quad; which side of the surface the edge's
//! corners lie on is all the index pass reads of the density field.
use vstd::prelude::*;
use vstd::arithmetic::power2::{pow2, lemma2_to64, lemma_pow2_strictly_increases};
use vstd::arithmetic::div_mod::{lemma_fundamental_div_mod, lemma_fundamental_div_mod_converse};
use vstd::bits::lemma_u32_shl_is_mul;
use crate::math::{UVec3, UVec4};

verus! {

/// Marks an empty slot of a vertex quad.
pub const U32_MAX: u32 = 0xFFFF_FFFF;

/// The linear index of voxel `(x, y, z)` in a box of `size` voxels, `x`
/// fastest.
pub open spec fn voxel_linear_index(size: UVec3, x: int, y: int, z: int) -> int {
    x + y * size.x + z * size.x * size.y
}

/// The number of voxels in a box of `size` voxels.
pub open spec fn voxel_count(size: UVec3) -> int {
    size.x * size.y * size.z
}

/// A voxel inside a box lies below the box's voxel count.
pub proof fn lemma_linear_index_in_box(size: UVec3, x: int, y: int, z: int)
    requires
        0 <= x < size.x,
        0 <= y < size.y,
        0 <= z < size.z,
    ensures
        0 <= voxel_linear_index(size, x, y, z) < voxel_count(size),
        z * size.x < voxel_count(size),
{
    let sx = size.x as int;
    let sy = size.y as int;
    let sz = size.z as int;
    assert(0 <= y * sx) by (nonlinear_arith)
        requires
            0 <= y,
            0 <= sx,
    ;
    assert(x + y * sx < sx * sy) by (nonlinear_arith)
        requires
            0 <= x < sx,
            0 <= y < sy,
    ;
    assert(0 <= z * sx * sy) by (nonlinear_arith)
        requires
            0 <= z,
            0 <= sx,
            0 <= sy,
    ;
    assert(z * sx * sy + sx * sy <= sx * sy * sz) by (nonlinear_arith)
        requires
            0 <= z < sz,
            0 <= sx,
            0 <= sy,
    ;
    assert(z * sx <= z * sx * sy) by (nonlinear_arith)
        requires
            0 <= z,
            0 <= sx,
            1 <= sy,
    ;
}

/// The linear index of voxel `(x, y, z)` in a box of `voxel_num` voxels.
pub fn get_voxel_internal_vertex_index(voxel_num: UVec3, x: u32, y: u32, z: u32) -> (r: usize)
    requires
        z * voxel_num.x <= u32::MAX,
        voxel_linear_index(voxel_num, x as int, y as int, z as int) <= u32::MAX,
    ensures
        r == voxel_linear_index(voxel_num, x as int, y as int, z as int),
{
    let nx = voxel_num.x;
    let ny = voxel_num.y;
    proof {
        assert(0 <= y * nx) by (nonlinear_arith)
            requires
                0 <= y,
                0 <= nx,
        ;
        assert(0 <= (z * nx) * ny) by (nonlinear_arith)
            requires
                0 <= z,
                0 <= nx,
                0 <= ny,
        ;
    }
    let zx = z * nx;
    (x + y * nx + zx * ny) as usize
}

/// Whether `value` is already in one of the four slots.
pub open spec fn holds_value(a: UVec4, value: usize) -> bool {
    a.x == value || a.y == value || a.z == value || a.w == value
}

/// The slots after `value` is added: unchanged where it is already there or
/// where it reads as `U32_MAX` in 32 bits, else written, cut to 32 bits, into
/// the first empty slot, if there is one.
pub open spec fn with_value(a: UVec4, value: usize) -> UVec4 {
    let v = value as u32;
    if holds_value(a, value) || v == U32_MAX {
        a
    } else if a.x == U32_MAX {
        UVec4 { x: v, y: a.y, z: a.z, w: a.w }
    } else if a.y == U32_MAX {
        UVec4 { x: a.x, y: v, z: a.z, w: a.w }
    } else if a.z == U32_MAX {
        UVec4 { x: a.x, y: a.y, z: v, w: a.w }
    } else if a.w == U32_MAX {
        UVec4 { x: a.x, y: a.y, z: a.z, w: v }
    } else {
        a
    }
}

/// Adds a mesh vertex index to a set of at most four, kept in the order of
/// arrival, `U32_MAX` marking an empty slot.
pub fn set_value(index_array: &mut UVec4, value: usize)
    ensures
        *final(index_array) == with_value(*old(index_array), value),
{
    let a = *index_array;
    if a.x as usize == value || a.y as usize == value || a.z as usize == value || a.w as usize
        == value {
        return;
    }
    let v = value as u32;
    if v == U32_MAX {
        return;
    }
    if a.x == U32_MAX {
        index_array.x = v;
    } else if a.y == U32_MAX {
        index_array.y = v;
    } else if a.z == U32_MAX {
        index_array.z = v;
    } else if a.w == U32_MAX {
        index_array.w = v;
    }
}

/// Four empty slots.
pub open spec fn empty_slots() -> UVec4 {
    UVec4 { x: U32_MAX, y: U32_MAX, z: U32_MAX, w: U32_MAX }
}

/// The number of filled slots.
pub open spec fn filled_slots(a: UVec4) -> nat {
    (if a.x != U32_MAX { 1nat } else { 0nat }) + (if a.y != U32_MAX { 1nat } else { 0nat }) + (
    if a.z != U32_MAX {
        1nat
    } else {
        0nat
    }) + (if a.w != U32_MAX { 1nat } else { 0nat })
}

/// The distinct mesh vertices of the four voxels around an edge, in the
/// order the voxels go round it: first, second, fourth, third.
pub open spec fn quad_slots(m0: usize, m1: usize, m2: usize, m3: usize) -> UVec4 {
    with_value(with_value(with_value(with_value(empty_slots(), m0), m1), m3), m2)
}

/// The triangle indices that filled slots give: one triangle of three
/// vertices, two of four, none else; wound by which side of the surface
/// the edge's first corner lies on.
pub open spec fn slot_triangles(a: UVec4, first_outside: bool) -> Seq<usize> {
    let n = filled_slots(a);
    let x = a.x as usize;
    let y = a.y as usize;
    let z = a.z as usize;
    let w = a.w as usize;
    if n == 3 {
        if first_outside {
            seq![x, y, z]
        } else {
            seq![x, z, y]
        }
    } else if n == 4 {
        if first_outside {
            seq![x, y, z, x, z, w]
        } else {
            seq![x, z, y, x, w, z]
        }
    } else {
        seq![]
    }
}

/// The triangle indices that an edge gives: none where both its corners lie
/// on one side of the surface, else those of the distinct mesh vertices of
/// the four voxels `i0`..`i3` around it.
pub open spec fn edge_triangles(
    map: Seq<usize>,
    outside_0: bool,
    outside_1: bool,
    i0: int,
    i1: int,
    i2: int,
    i3: int,
) -> Seq<usize> {
    if outside_0 == outside_1 {
        seq![]
    } else {
        slot_triangles(quad_slots(map[i0], map[i1], map[i2], map[i3]), outside_0)
    }
}

/// `s` with `q` written over it from `at` on.
pub open spec fn overwrite(s: Seq<usize>, at: int, q: Seq<usize>) -> Seq<usize> {
    Seq::new(s.len(), |i: int| if at <= i < at + q.len() { q[i - at] } else { s[i] })
}

/// Writing two runs one after the other writes their concatenation.
pub proof fn lemma_overwrite_twice(s: Seq<usize>, at: int, q1: Seq<usize>, q2: Seq<usize>)
    requires
        0 <= at,
        at + q1.len() + q2.len() <= s.len(),
    ensures
        overwrite(overwrite(s, at, q1), at + q1.len(), q2) == overwrite(s, at, q1 + q2),
{
    assert(overwrite(overwrite(s, at, q1), at + q1.len(), q2) =~= overwrite(s, at, q1 + q2));
}

/// Each slot is empty or holds one of `m0`..`m3`, the filled slots come
/// first and hold distinct values.
pub open spec fn slots_from(a: UVec4, m0: usize, m1: usize, m2: usize, m3: usize) -> bool {
    let from = |s: u32| s == U32_MAX || s == m0 || s == m1 || s == m2 || s == m3;
    &&& from(a.x) && from(a.y) && from(a.z) && from(a.w)
    &&& (a.x == U32_MAX ==> a.y == U32_MAX)
    &&& (a.y == U32_MAX ==> a.z == U32_MAX)
    &&& (a.z == U32_MAX ==> a.w == U32_MAX)
    &&& (a.y != U32_MAX ==> a.x != a.y)
    &&& (a.z != U32_MAX ==> a.x != a.z && a.y != a.z)
    &&& (a.w != U32_MAX ==> a.x != a.w && a.y != a.w && a.z != a.w)
}

proof fn lemma_with_value_keeps_slots(
    a: UVec4,
    value: usize,
    m0: usize,
    m1: usize,
    m2: usize,
    m3: usize,
)
    requires
        slots_from(a, m0, m1, m2, m3),
        value <= u32::MAX,
        value == m0 || value == m1 || value == m2 || value == m3,
    ensures
        slots_from(with_value(a, value), m0, m1, m2, m3),
{
    assert(value as u32 == value);
}

/// The triangles of an edge connect only the mesh vertices of the four
/// voxels around it, never the empty mark, in whole triangles of three
/// distinct vertices: where the map's entries fit in 32 bits.
pub proof fn lemma_edge_triangles_well_formed(
    map: Seq<usize>,
    outside_0: bool,
    outside_1: bool,
    i0: int,
    i1: int,
    i2: int,
    i3: int,
)
    requires
        0 <= i0 < map.len(),
        0 <= i1 < map.len(),
        0 <= i2 < map.len(),
        0 <= i3 < map.len(),
        map[i0] <= u32::MAX,
        map[i1] <= u32::MAX,
        map[i2] <= u32::MAX,
        map[i3] <= u32::MAX,
    ensures
        ({
            let q = edge_triangles(map, outside_0, outside_1, i0, i1, i2, i3);
            &&& q.len() % 3 == 0
            &&& forall|t: int|
                0 <= t < q.len() ==> #[trigger] q[t] != U32_MAX && (q[t] == map[i0] || q[t]
                    == map[i1] || q[t] == map[i2] || q[t] == map[i3])
            &&& forall|m: int|
                0 <= m < q.len() / 3 ==> #[trigger] q[3 * m] != q[3 * m + 1] && q[3 * m + 1] != q[3
                    * m + 2] && q[3 * m] != q[3 * m + 2]
        }),
{
    let (m0, m1, m2, m3) = (map[i0], map[i1], map[i2], map[i3]);
    let e = empty_slots();
    let a1 = with_value(e, m0);
    let a2 = with_value(a1, m1);
    let a3 = with_value(a2, m3);
    let a4 = with_value(a3, m2);
    lemma_with_value_keeps_slots(e, m0, m0, m1, m2, m3);
    lemma_with_value_keeps_slots(a1, m1, m0, m1, m2, m3);
    lemma_with_value_keeps_slots(a2, m3, m0, m1, m2, m3);
    lemma_with_value_keeps_slots(a3, m2, m0, m1, m2, m3);
    assert(a4 == quad_slots(m0, m1, m2, m3));
    let q = edge_triangles(map, outside_0, outside_1, i0, i1, i2, i3);
    if q.len() > 0 {
        assert(q.len() == 3 || q.len() == 6);
        assert forall|m: int| 0 <= m < q.len() / 3 implies #[trigger] q[3 * m] != q[3 * m + 1]
            && q[3 * m + 1] != q[3 * m + 2] && q[3 * m] != q[3 * m + 2] by {
            assert(m == 0 || m == 1);
        }
    }
}

/// Swapping which of an edge's two corners lies outside the surface
/// reverses the winding of each of its triangles and changes nothing else.
pub proof fn lemma_edge_triangles_flip(
    map: Seq<usize>,
    outside_0: bool,
    outside_1: bool,
    i0: int,
    i1: int,
    i2: int,
    i3: int,
)
    ensures
        ({
            let q = edge_triangles(map, outside_0, outside_1, i0, i1, i2, i3);
            let r = edge_triangles(map, outside_1, outside_0, i0, i1, i2, i3);
            &&& r.len() == q.len()
            &&& forall|m: int|
                0 <= m < q.len() / 3 ==> r[3 * m] == #[trigger] q[3 * m] && r[3 * m + 1] == q[3 * m
                    + 2] && r[3 * m + 2] == q[3 * m + 1]
        }),
{
    let q = edge_triangles(map, outside_0, outside_1, i0, i1, i2, i3);
    let r = edge_triangles(map, outside_1, outside_0, i0, i1, i2, i3);
    assert forall|m: int| 0 <= m < q.len() / 3 implies r[3 * m] == #[trigger] q[3 * m] && r[3 * m
        + 1] == q[3 * m + 2] && r[3 * m + 2] == q[3 * m + 1] by {
        assert(m == 0 || m == 1);
    }
}

/// The mesh vertex map of the seam and the triangle indices written so far.
pub struct ComputeIndicesContext {
    pub mesh_vertex_map: Vec<usize>,
    pub mesh_indices_data: Vec<usize>,
    pub mesh_indices_num: usize,
}

/// The number of filled slots.
fn count_filled(a: UVec4) -> (r: usize)
    ensures
        r == filled_slots(a),
{
    let mut n: usize = 0;
    if a.x != U32_MAX {
        n = n + 1;
    }
    if a.y != U32_MAX {
        n = n + 1;
    }
    if a.z != U32_MAX {
        n = n + 1;
    }
    if a.w != U32_MAX {
        n = n + 1;
    }
    n
}

/// Appends the triangles of one edge of a seam voxel: `outside_0` and
/// `outside_1` say whether the edge's corners lie outside the surface
/// (density at least zero), `voxel_index_0`..`voxel_index_3` are the four
/// voxels around it.
pub fn compute_indices_on_axis(
    context: &mut ComputeIndicesContext,
    outside_0: bool,
    outside_1: bool,
    voxel_index_0: usize,
    voxel_index_1: usize,
    voxel_index_2: usize,
    voxel_index_3: usize,
)
    requires
        voxel_index_0 < old(context).mesh_vertex_map.len(),
        voxel_index_1 < old(context).mesh_vertex_map.len(),
        voxel_index_2 < old(context).mesh_vertex_map.len(),
        voxel_index_3 < old(context).mesh_vertex_map.len(),
        old(context).mesh_indices_num + edge_triangles(
            old(context).mesh_vertex_map@,
            outside_0,
            outside_1,
            voxel_index_0 as int,
            voxel_index_1 as int,
            voxel_index_2 as int,
            voxel_index_3 as int,
        ).len() <= old(context).mesh_indices_data.len(),
    ensures
        ({
            let q = edge_triangles(
                old(context).mesh_vertex_map@,
                outside_0,
                outside_1,
                voxel_index_0 as int,
                voxel_index_1 as int,
                voxel_index_2 as int,
                voxel_index_3 as int,
            );
            &&& final(context).mesh_vertex_map@ == old(context).mesh_vertex_map@
            &&& final(context).mesh_indices_num == old(context).mesh_indices_num + q.len()
            &&& final(context).mesh_indices_data@ == overwrite(
                old(context).mesh_indices_data@,
                old(context).mesh_indices_num as int,
                q,
            )
        }),
{
    let ghost data0 = context.mesh_indices_data@;
    if outside_0 == outside_1 {
        assert(context.mesh_indices_data@ =~= overwrite(data0, context.mesh_indices_num as int, seq![]));
        return;
    }
    let m0 = context.mesh_vertex_map[voxel_index_0];
    let m1 = context.mesh_vertex_map[voxel_index_1];
    let m2 = context.mesh_vertex_map[voxel_index_2];
    let m3 = context.mesh_vertex_map[voxel_index_3];
    let mut slots = UVec4::new(U32_MAX, U32_MAX, U32_MAX, U32_MAX);
    set_value(&mut slots, m0);
    set_value(&mut slots, m1);
    set_value(&mut slots, m3);
    set_value(&mut slots, m2);
    let ghost q = slot_triangles(slots, outside_0);
    let num = count_filled(slots);
    let at = context.mesh_indices_num;
    let x = slots.x as usize;
    let y = slots.y as usize;
    let z = slots.z as usize;
    let w = slots.w as usize;
    if num == 3 {
        context.mesh_indices_num = at + 3;
        if outside_0 {
            context.mesh_indices_data[at] = x;
            context.mesh_indices_data[at + 1] = y;
            context.mesh_indices_data[at + 2] = z;
        } else {
            context.mesh_indices_data[at] = x;
            context.mesh_indices_data[at + 1] = z;
            context.mesh_indices_data[at + 2] = y;
        }
    } else if num == 4 {
        context.mesh_indices_num = at + 6;
        if outside_0 {
            context.mesh_indices_data[at] = x;
            context.mesh_indices_data[at + 1] = y;
            context.mesh_indices_data[at + 2] = z;
            context.mesh_indices_data[at + 3] = x;
            context.mesh_indices_data[at + 4] = z;
            context.mesh_indices_data[at + 5] = w;
        } else {
            context.mesh_indices_data[at] = x;
            context.mesh_indices_data[at + 1] = z;
            context.mesh_indices_data[at + 2] = y;
            context.mesh_indices_data[at + 3] = x;
            context.mesh_indices_data[at + 4] = w;
            context.mesh_indices_data[at + 5] = z;
        }
    }
    assert(context.mesh_indices_data@ =~= overwrite(data0, at as int, q));
}

/// The linear index, in a box of `size` voxels, of the voxel `(dx, dy, dz)`
/// away from `inv`.
pub open spec fn corner_voxel(size: UVec3, inv: UVec3, dx: int, dy: int, dz: int) -> int {
    voxel_linear_index(size, inv.x + dx, inv.y + dy, inv.z + dz)
}

/// The triangle indices of seam voxel `inv` in a seam of `size` voxels, its
/// corners numbered with `x` as bit 1, `y` as bit 2 and `z` as bit 4: for
/// its far edge along x (corners 7 and 6), along y (5 and 7) and along z
/// (7 and 3), in that order, each where the voxels around that edge lie
/// inside the seam.
pub open spec fn seam_voxel_triangles(
    map: Seq<usize>,
    size: UVec3,
    inv: UVec3,
    corner_outside: [bool; 8],
) -> Seq<usize> {
    let far_x = inv.x + 1 == size.x;
    let far_y = inv.y + 1 == size.y;
    let far_z = inv.z + 1 == size.z;
    let along_x = if !far_y && !far_z {
        edge_triangles(
            map,
            corner_outside[7],
            corner_outside[6],
            corner_voxel(size, inv, 0, 0, 0),
            corner_voxel(size, inv, 0, 1, 0),
            corner_voxel(size, inv, 0, 0, 1),
            corner_voxel(size, inv, 0, 1, 1),
        )
    } else {
        seq![]
    };
    let along_y = if !far_x && !far_z {
        edge_triangles(
            map,
            corner_outside[5],
            corner_outside[7],
            corner_voxel(size, inv, 0, 0, 0),
            corner_voxel(size, inv, 1, 0, 0),
            corner_voxel(size, inv, 0, 0, 1),
            corner_voxel(size, inv, 1, 0, 1),
        )
    } else {
        seq![]
    };
    let along_z = if !far_x && !far_y {
        edge_triangles(
            map,
            corner_outside[7],
            corner_outside[3],
            corner_voxel(size, inv, 0, 0, 0),
            corner_voxel(size, inv, 1, 0, 0),
            corner_voxel(size, inv, 0, 1, 0),
            corner_voxel(size, inv, 1, 1, 0),
        )
    } else {
        seq![]
    };
    along_x + along_y + along_z
}

/// The two triangles over the quad of the four voxels `v0`, `v1`, `v2`,
/// `v3` around an edge that crosses the surface, taken round the edge as
/// `v0`, `v1`, `v3`, `v2`, split along `v0`-`v3`: wound that way where the
/// edge's first corner is outside, the other way where it is inside.
pub open spec fn quad_indices(first_outside: bool, v0: usize, v1: usize, v2: usize, v3: usize) -> Seq<
    usize,
> {
    if first_outside {
        seq![v0, v1, v3, v0, v3, v2]
    } else {
        seq![v0, v3, v1, v0, v2, v3]
    }
}

/// Whether voxel `(dx, dy, dz)` away from `inv` lies in the box of `size`.
pub open spec fn in_box(size: UVec3, inv: UVec3, dx: int, dy: int, dz: int) -> bool {
    inv.x + dx < size.x && inv.y + dy < size.y && inv.z + dz < size.z
}

/// Whether the voxels `(0..1, 0..1, 0..1)` away from `inv` that lie in the
/// box each have a mesh vertex of their own.
pub open spec fn own_vertices(map: Seq<usize>, size: UVec3, inv: UVec3) -> bool {
    &&& forall|dx: int, dy: int, dz: int|
        0 <= dx <= 1 && 0 <= dy <= 1 && 0 <= dz <= 1 && in_box(size, inv, dx, dy, dz) ==> map[
            #[trigger] corner_voxel(size, inv, dx, dy, dz)] < U32_MAX
    &&& forall|dx: int, dy: int, dz: int, ex: int, ey: int, ez: int|
        0 <= dx <= 1 && 0 <= dy <= 1 && 0 <= dz <= 1 && 0 <= ex <= 1 && 0 <= ey <= 1 && 0 <= ez
            <= 1 && in_box(size, inv, dx, dy, dz) && in_box(size, inv, ex, ey, ez) && (dx != ex
            || dy != ey || dz != ez) ==> map[#[trigger] corner_voxel(size, inv, dx, dy, dz)]
            != map[#[trigger] corner_voxel(size, inv, ex, ey, ez)]
}

/// An edge between four voxels with distinct mesh vertices gives no
/// triangle where its corners lie on one side, else the two over their quad.
proof fn lemma_edge_triangles_distinct(
    map: Seq<usize>,
    outside_0: bool,
    outside_1: bool,
    i0: int,
    i1: int,
    i2: int,
    i3: int,
)
    requires
        map[i0] < U32_MAX,
        map[i1] < U32_MAX,
        map[i2] < U32_MAX,
        map[i3] < U32_MAX,
        map[i0] != map[i1],
        map[i0] != map[i2],
        map[i0] != map[i3],
        map[i1] != map[i2],
        map[i1] != map[i3],
        map[i2] != map[i3],
    ensures
        edge_triangles(map, outside_0, outside_1, i0, i1, i2, i3) == if outside_0 == outside_1 {
            seq![]
        } else {
            quad_indices(outside_0, map[i0], map[i1], map[i2], map[i3])
        },
{
    let (m0, m1, m2, m3) = (map[i0], map[i1], map[i2], map[i3]);
    assert(m0 as u32 == m0 && m1 as u32 == m1 && m2 as u32 == m2 && m3 as u32 == m3);
    let a = quad_slots(m0, m1, m2, m3);
    assert(a == UVec4 { x: m0 as u32, y: m1 as u32, z: m3 as u32, w: m2 as u32 });
    assert(filled_slots(a) == 4);
}

/// The triangles of a seam voxel whose voxels around have distinct mesh
/// vertices: its far edge along x (corners 7 and 6), then along y (corners
/// 5 and 7), then along z (corners 7 and 3) each give the two triangles over
/// the quad of the four voxels around it exactly where the four voxels lie
/// in the seam and its two corners lie on different sides of the surface;
/// and at any seam voxel, where those corners all lie on one side, there is
/// no triangle.
pub proof fn lemma_seam_voxel_crossings(
    map: Seq<usize>,
    size: UVec3,
    inv: UVec3,
    corner_outside: [bool; 8],
)
    ensures
        corner_outside[7] == corner_outside[6] && corner_outside[5] == corner_outside[7]
            && corner_outside[7] == corner_outside[3] ==> seam_voxel_triangles(
            map,
            size,
            inv,
            corner_outside,
        ) == Seq::<usize>::empty(),
        inv.x < size.x && inv.y < size.y && inv.z < size.z && own_vertices(map, size, inv)
            ==> seam_voxel_triangles(map, size, inv, corner_outside) == (if !in_box(
            size,
            inv,
            0,
            1,
            1,
        ) || corner_outside[7] == corner_outside[6] {
            seq![]
        } else {
            quad_indices(
                corner_outside[7],
                map[corner_voxel(size, inv, 0, 0, 0)],
                map[corner_voxel(size, inv, 0, 1, 0)],
                map[corner_voxel(size, inv, 0, 0, 1)],
                map[corner_voxel(size, inv, 0, 1, 1)],
            )
        }) + (if !in_box(size, inv, 1, 0, 1) || corner_outside[5] == corner_outside[7] {
            seq![]
        } else {
            quad_indices(
                corner_outside[5],
                map[corner_voxel(size, inv, 0, 0, 0)],
                map[corner_voxel(size, inv, 1, 0, 0)],
                map[corner_voxel(size, inv, 0, 0, 1)],
                map[corner_voxel(size, inv, 1, 0, 1)],
            )
        }) + (if !in_box(size, inv, 1, 1, 0) || corner_outside[7] == corner_outside[3] {
            seq![]
        } else {
            quad_indices(
                corner_outside[7],
                map[corner_voxel(size, inv, 0, 0, 0)],
                map[corner_voxel(size, inv, 1, 0, 0)],
                map[corner_voxel(size, inv, 0, 1, 0)],
                map[corner_voxel(size, inv, 1, 1, 0)],
            )
        }),
{
    if corner_outside[7] == corner_outside[6] && corner_outside[5] == corner_outside[7]
        && corner_outside[7] == corner_outside[3] {
        assert(seam_voxel_triangles(map, size, inv, corner_outside) =~= Seq::<usize>::empty());
    }
    if inv.x < size.x && inv.y < size.y && inv.z < size.z && own_vertices(map, size, inv) {
        let c000 = corner_voxel(size, inv, 0, 0, 0);
        let c100 = corner_voxel(size, inv, 1, 0, 0);
        let c010 = corner_voxel(size, inv, 0, 1, 0);
        let c110 = corner_voxel(size, inv, 1, 1, 0);
        let c001 = corner_voxel(size, inv, 0, 0, 1);
        let c101 = corner_voxel(size, inv, 1, 0, 1);
        let c011 = corner_voxel(size, inv, 0, 1, 1);
        assert(in_box(size, inv, 0, 0, 0));
        assert(map[c000] < U32_MAX);
        if in_box(size, inv, 0, 1, 1) {
            assert(in_box(size, inv, 0, 1, 0) && in_box(size, inv, 0, 0, 1));
            assert(map[c010] < U32_MAX && map[c001] < U32_MAX && map[c011] < U32_MAX);
            assert(map[c000] != map[c010] && map[c000] != map[c001] && map[c000] != map[c011]);
            assert(map[c010] != map[c001] && map[c010] != map[c011] && map[c001] != map[c011]);
            lemma_edge_triangles_distinct(map, corner_outside[7], corner_outside[6], c000, c010, c001, c011);
        }
        if in_box(size, inv, 1, 0, 1) {
            assert(in_box(size, inv, 1, 0, 0) && in_box(size, inv, 0, 0, 1));
            assert(map[c100] < U32_MAX && map[c001] < U32_MAX && map[c101] < U32_MAX);
            assert(map[c000] != map[c100] && map[c000] != map[c001] && map[c000] != map[c101]);
            assert(map[c100] != map[c001] && map[c100] != map[c101] && map[c001] != map[c101]);
            lemma_edge_triangles_distinct(map, corner_outside[5], corner_outside[7], c000, c100, c001, c101);
        }
        if in_box(size, inv, 1, 1, 0) {
            assert(in_box(size, inv, 1, 0, 0) && in_box(size, inv, 0, 1, 0));
            assert(map[c100] < U32_MAX && map[c010] < U32_MAX && map[c110] < U32_MAX);
            assert(map[c000] != map[c100] && map[c000] != map[c010] && map[c000] != map[c110]);
            assert(map[c100] != map[c010] && map[c100] != map[c110] && map[c010] != map[c110]);
            lemma_edge_triangles_distinct(map, corner_outside[7], corner_outside[3], c000, c100, c010, c110);
        }
    }
}

/// The index of the voxel `(dx, dy, dz)` away from `inv`, inside the box.
fn corner_index(size: UVec3, inv: UVec3, dx: u32, dy: u32, dz: u32) -> (r: usize)
    requires
        inv.x + dx < size.x,
        inv.y + dy < size.y,
        inv.z + dz < size.z,
        voxel_count(size) <= u32::MAX,
    ensures
        r == corner_voxel(size, inv, dx as int, dy as int, dz as int),
        r < voxel_count(size),
{
    let x = inv.x + dx;
    let y = inv.y + dy;
    let z = inv.z + dz;
    proof {
        lemma_linear_index_in_box(size, x as int, y as int, z as int);
    }
    get_voxel_internal_vertex_index(size, x, y, z)
}

/// Appends the triangles of seam voxel `inv`.
fn compute_seam_voxel_indices(
    context: &mut ComputeIndicesContext,
    seam_voxel_size: UVec3,
    invocation_id: UVec3,
    corner_outside: [bool; 8],
)
    requires
        invocation_id.x < seam_voxel_size.x,
        invocation_id.y < seam_voxel_size.y,
        invocation_id.z < seam_voxel_size.z,
        voxel_count(seam_voxel_size) <= u32::MAX,
        old(context).mesh_vertex_map.len() >= voxel_count(seam_voxel_size),
        old(context).mesh_indices_num + seam_voxel_triangles(
            old(context).mesh_vertex_map@,
            seam_voxel_size,
            invocation_id,
            corner_outside,
        ).len() <= old(context).mesh_indices_data.len(),
    ensures
        ({
            let q = seam_voxel_triangles(
                old(context).mesh_vertex_map@,
                seam_voxel_size,
                invocation_id,
                corner_outside,
            );
            &&& final(context).mesh_vertex_map@ == old(context).mesh_vertex_map@
            &&& final(context).mesh_indices_num == old(context).mesh_indices_num + q.len()
            &&& final(context).mesh_indices_data@ == overwrite(
                old(context).mesh_indices_data@,
                old(context).mesh_indices_num as int,
                q,
            )
        }),
{
    let size = seam_voxel_size;
    let inv = invocation_id;
    let ghost map = context.mesh_vertex_map@;
    let ghost data0 = context.mesh_indices_data@;
    let ghost at0 = context.mesh_indices_num as int;
    let far_x = inv.x + 1 == size.x;
    let far_y = inv.y + 1 == size.y;
    let far_z = inv.z + 1 == size.z;
    let ghost along_x = if !far_y && !far_z {
        edge_triangles(
            map,
            corner_outside[7],
            corner_outside[6],
            corner_voxel(size, inv, 0, 0, 0),
            corner_voxel(size, inv, 0, 1, 0),
            corner_voxel(size, inv, 0, 0, 1),
            corner_voxel(size, inv, 0, 1, 1),
        )
    } else {
        seq![]
    };
    let ghost along_y = if !far_x && !far_z {
        edge_triangles(
            map,
            corner_outside[5],
            corner_outside[7],
            corner_voxel(size, inv, 0, 0, 0),
            corner_voxel(size, inv, 1, 0, 0),
            corner_voxel(size, inv, 0, 0, 1),
            corner_voxel(size, inv, 1, 0, 1),
        )
    } else {
        seq![]
    };
    let ghost along_z = if !far_x && !far_y {
        edge_triangles(
            map,
            corner_outside[7],
            corner_outside[3],
            corner_voxel(size, inv, 0, 0, 0),
            corner_voxel(size, inv, 1, 0, 0),
            corner_voxel(size, inv, 0, 1, 0),
            corner_voxel(size, inv, 1, 1, 0),
        )
    } else {
        seq![]
    };
    assert(seam_voxel_triangles(map, size, inv, corner_outside) == along_x + along_y + along_z);
    if !far_y && !far_z {
        let v0 = corner_index(size, inv, 0, 0, 0);
        let v2 = corner_index(size, inv, 0, 1, 0);
        let v4 = corner_index(size, inv, 0, 0, 1);
        let v6 = corner_index(size, inv, 0, 1, 1);
        compute_indices_on_axis(context, corner_outside[7], corner_outside[6], v0, v2, v4, v6);
    } else {
        assert(context.mesh_indices_data@ =~= overwrite(data0, at0, along_x));
    }
    let ghost data1 = context.mesh_indices_data@;
    if !far_x && !far_z {
        let v0 = corner_index(size, inv, 0, 0, 0);
        let v1 = corner_index(size, inv, 1, 0, 0);
        let v4 = corner_index(size, inv, 0, 0, 1);
        let v5 = corner_index(size, inv, 1, 0, 1);
        compute_indices_on_axis(context, corner_outside[5], corner_outside[7], v0, v1, v4, v5);
    } else {
        assert(context.mesh_indices_data@ =~= overwrite(data1, at0 + along_x.len(), along_y));
    }
    proof {
        lemma_overwrite_twice(data0, at0, along_x, along_y);
    }
    let ghost data2 = context.mesh_indices_data@;
    if !far_x && !far_y {
        let v0 = corner_index(size, inv, 0, 0, 0);
        let v1 = corner_index(size, inv, 1, 0, 0);
        let v2 = corner_index(size, inv, 0, 1, 0);
        let v3 = corner_index(size, inv, 1, 1, 0);
        compute_indices_on_axis(context, corner_outside[7], corner_outside[3], v0, v1, v2, v3);
    } else {
        assert(context.mesh_indices_data@ =~= overwrite(
            data2,
            at0 + along_x.len() + along_y.len(),
            along_z,
        ));
    }
    proof {
        lemma_overwrite_twice(data0, at0, along_x + along_y, along_z);
    }
}

/// The seam on the x side of a chunk of `voxel_num` voxels per side: two
/// voxels thick along x.
pub open spec fn x_axis_seam_size(voxel_num: u32) -> UVec3 {
    UVec3 { x: 2, y: (voxel_num + 1) as u32, z: (voxel_num + 1) as u32 }
}

/// The seam on the y side: two voxels thick along y.
pub open spec fn y_axis_seam_size(voxel_num: u32) -> UVec3 {
    UVec3 { x: (voxel_num + 1) as u32, y: 2, z: (voxel_num + 1) as u32 }
}

/// The seam on the z side: two voxels thick along z.
pub open spec fn z_axis_seam_size(voxel_num: u32) -> UVec3 {
    UVec3 { x: (voxel_num + 1) as u32, y: (voxel_num + 1) as u32, z: 2 }
}

/// The largest voxel index that the x seam pass computes (that of the
/// voxel past the far y and z corner) fits in 32 bits.
pub open spec fn x_axis_indices_fit(voxel_num: u32) -> bool {
    1 + 2 * (voxel_num + 1) + 2 * (voxel_num + 1) * (voxel_num + 1) <= u32::MAX
}

/// The same for the y seam.
pub open spec fn y_axis_indices_fit(voxel_num: u32) -> bool {
    voxel_num + 2 * (voxel_num + 1) + 2 * (voxel_num + 1) * (voxel_num + 1) <= u32::MAX
}

/// The same for the z seam.
pub open spec fn z_axis_indices_fit(voxel_num: u32) -> bool {
    voxel_num + (voxel_num + 1) * (voxel_num + 1) + 2 * (voxel_num + 1) * (voxel_num + 1)
        <= u32::MAX
}

/// The triangle indices of voxel `inv` of the x seam: none where `inv` lies
/// past the seam in y or z.
pub open spec fn x_axis_triangles(
    map: Seq<usize>,
    voxel_num: u32,
    inv: UVec3,
    corner_outside: [bool; 8],
) -> Seq<usize> {
    if inv.y > voxel_num || inv.z > voxel_num {
        seq![]
    } else {
        seam_voxel_triangles(map, x_axis_seam_size(voxel_num), inv, corner_outside)
    }
}

/// The triangle indices of voxel `inv` of the y seam: none where `inv` lies
/// past the seam in x or z.
pub open spec fn y_axis_triangles(
    map: Seq<usize>,
    voxel_num: u32,
    inv: UVec3,
    corner_outside: [bool; 8],
) -> Seq<usize> {
    if inv.x > voxel_num || inv.z > voxel_num {
        seq![]
    } else {
        seam_voxel_triangles(map, y_axis_seam_size(voxel_num), inv, corner_outside)
    }
}

/// The triangle indices of voxel `inv` of the z seam: none where `inv` lies
/// past the seam in x or y.
pub open spec fn z_axis_triangles(
    map: Seq<usize>,
    voxel_num: u32,
    inv: UVec3,
    corner_outside: [bool; 8],
) -> Seq<usize> {
    if inv.x > voxel_num || inv.y > voxel_num {
        seq![]
    } else {
        seam_voxel_triangles(map, z_axis_seam_size(voxel_num), inv, corner_outside)
    }
}

/// Appends the triangles of voxel `invocation_id` of the x seam of a chunk
/// of `voxel_num` voxels per side; `corner_outside` says which corners of
/// the voxel lie outside the surface.
pub fn compute_indices_x_axis(
    context: &mut ComputeIndicesContext,
    voxel_num: u32,
    invocation_id: UVec3,
    corner_outside: [bool; 8],
)
    requires
        invocation_id.y <= voxel_num && invocation_id.z <= voxel_num ==> {
            &&& invocation_id.x <= 1
            &&& voxel_num > 0
            &&& x_axis_indices_fit(voxel_num)
            &&& old(context).mesh_vertex_map.len() >= voxel_count(x_axis_seam_size(voxel_num))
        },
        old(context).mesh_indices_num + x_axis_triangles(
            old(context).mesh_vertex_map@,
            voxel_num,
            invocation_id,
            corner_outside,
        ).len() <= old(context).mesh_indices_data.len(),
    ensures
        ({
            let q = x_axis_triangles(
                old(context).mesh_vertex_map@,
                voxel_num,
                invocation_id,
                corner_outside,
            );
            &&& final(context).mesh_vertex_map@ == old(context).mesh_vertex_map@
            &&& final(context).mesh_indices_num == old(context).mesh_indices_num + q.len()
            &&& final(context).mesh_indices_data@ == overwrite(
                old(context).mesh_indices_data@,
                old(context).mesh_indices_num as int,
                q,
            )
        }),
{
    if invocation_id.y > voxel_num || invocation_id.z > voxel_num {
        assert(context.mesh_indices_data@ =~= overwrite(
            context.mesh_indices_data@,
            context.mesh_indices_num as int,
            seq![],
        ));
        return;
    }
    let n1 = voxel_num + 1;
    let seam_voxel_size = UVec3::new(2, n1, n1);
    assert(2 * n1 * n1 <= u32::MAX) by (nonlinear_arith)
        requires
            1 + 2 * n1 + 2 * n1 * n1 <= u32::MAX,
    ;
    compute_seam_voxel_indices(context, seam_voxel_size, invocation_id, corner_outside);
}

/// Appends the triangles of voxel `invocation_id` of the y seam.
pub fn compute_indices_y_axis(
    context: &mut ComputeIndicesContext,
    voxel_num: u32,
    invocation_id: UVec3,
    corner_outside: [bool; 8],
)
    requires
        invocation_id.x <= voxel_num && invocation_id.z <= voxel_num ==> {
            &&& invocation_id.y <= 1
            &&& voxel_num > 0
            &&& y_axis_indices_fit(voxel_num)
            &&& old(context).mesh_vertex_map.len() >= voxel_count(y_axis_seam_size(voxel_num))
        },
        old(context).mesh_indices_num + y_axis_triangles(
            old(context).mesh_vertex_map@,
            voxel_num,
            invocation_id,
            corner_outside,
        ).len() <= old(context).mesh_indices_data.len(),
    ensures
        ({
            let q = y_axis_triangles(
                old(context).mesh_vertex_map@,
                voxel_num,
                invocation_id,
                corner_outside,
            );
            &&& final(context).mesh_vertex_map@ == old(context).mesh_vertex_map@
            &&& final(context).mesh_indices_num == old(context).mesh_indices_num + q.len()
            &&& final(context).mesh_indices_data@ == overwrite(
                old(context).mesh_indices_data@,
                old(context).mesh_indices_num as int,
                q,
            )
        }),
{
    if invocation_id.x > voxel_num || invocation_id.z > voxel_num {
        assert(context.mesh_indices_data@ =~= overwrite(
            context.mesh_indices_data@,
            context.mesh_indices_num as int,
            seq![],
        ));
        return;
    }
    let n1 = voxel_num + 1;
    let seam_voxel_size = UVec3::new(n1, 2, n1);
    assert(n1 * 2 * n1 <= u32::MAX) by (nonlinear_arith)
        requires
            voxel_num + 2 * n1 + 2 * n1 * n1 <= u32::MAX,
    ;
    compute_seam_voxel_indices(context, seam_voxel_size, invocation_id, corner_outside);
}

/// Appends the triangles of voxel `invocation_id` of the z seam.
pub fn compute_indices_z_axis(
    context: &mut ComputeIndicesContext,
    voxel_num: u32,
    invocation_id: UVec3,
    corner_outside: [bool; 8],
)
    requires
        invocation_id.x <= voxel_num && invocation_id.y <= voxel_num ==> {
            &&& invocation_id.z <= 1
            &&& voxel_num > 0
            &&& z_axis_indices_fit(voxel_num)
            &&& old(context).mesh_vertex_map.len() >= voxel_count(z_axis_seam_size(voxel_num))
        },
        old(context).mesh_indices_num + z_axis_triangles(
            old(context).mesh_vertex_map@,
            voxel_num,
            invocation_id,
            corner_outside,
        ).len() <= old(context).mesh_indices_data.len(),
    ensures
        ({
            let q = z_axis_triangles(
                old(context).mesh_vertex_map@,
                voxel_num,
                invocation_id,
                corner_outside,
            );
            &&& final(context).mesh_vertex_map@ == old(context).mesh_vertex_map@
            &&& final(context).mesh_indices_num == old(context).mesh_indices_num + q.len()
            &&& final(context).mesh_indices_data@ == overwrite(
                old(context).mesh_indices_data@,
                old(context).mesh_indices_num as int,
                q,
            )
        }),
{
    if invocation_id.x > voxel_num || invocation_id.y > voxel_num {
        assert(context.mesh_indices_data@ =~= overwrite(
            context.mesh_indices_data@,
            context.mesh_indices_num as int,
            seq![],
        ));
        return;
    }
    assert(voxel_num + 1 <= u32::MAX) by (nonlinear_arith)
        requires
            voxel_num + (voxel_num + 1) * (voxel_num + 1) + 2 * (voxel_num + 1) * (voxel_num + 1)
                <= u32::MAX,
    ;
    let n1 = voxel_num + 1;
    let seam_voxel_size = UVec3::new(n1, n1, 2);
    assert(n1 * n1 * 2 <= u32::MAX) by (nonlinear_arith)
        requires
            voxel_num + n1 * n1 + 2 * n1 * n1 <= u32::MAX,
    ;
    compute_seam_voxel_indices(context, seam_voxel_size, invocation_id, corner_outside);
}

/// The seam on `axis` (0: x, 1: y, 2: z).
pub open spec fn axis_seam_size(axis: int, voxel_num: u32) -> UVec3 {
    if axis == 0 {
        x_axis_seam_size(voxel_num)
    } else if axis == 1 {
        y_axis_seam_size(voxel_num)
    } else {
        z_axis_seam_size(voxel_num)
    }
}

/// The triangle indices of voxel `inv` of the seam on `axis`.
pub open spec fn axis_triangles(
    axis: int,
    map: Seq<usize>,
    voxel_num: u32,
    inv: UVec3,
    corner_outside: [bool; 8],
) -> Seq<usize> {
    if axis == 0 {
        x_axis_triangles(map, voxel_num, inv, corner_outside)
    } else if axis == 1 {
        y_axis_triangles(map, voxel_num, inv, corner_outside)
    } else {
        z_axis_triangles(map, voxel_num, inv, corner_outside)
    }
}

/// The triangle indices of voxels `(i, j, 0)` to `(i, j, k - 1)` of the seam
/// on `axis`, in that order; `corners` holds each seam voxel's corner sides
/// at its linear index.
pub open spec fn seam_row_triangles(
    axis: int,
    map: Seq<usize>,
    voxel_num: u32,
    corners: Seq<[bool; 8]>,
    i: u32,
    j: u32,
    k: nat,
) -> Seq<usize>
    decreases k,
{
    if k == 0 {
        seq![]
    } else {
        let z = (k - 1) as int;
        let inv = UVec3 { x: i, y: j, z: z as u32 };
        let c = corners[voxel_linear_index(axis_seam_size(axis, voxel_num), i as int, j as int, z)];
        seam_row_triangles(axis, map, voxel_num, corners, i, j, (k - 1) as nat) + axis_triangles(
            axis,
            map,
            voxel_num,
            inv,
            c,
        )
    }
}

/// The triangle indices of the rows `(i, 0)` to `(i, j - 1)`.
pub open spec fn seam_slice_triangles(
    axis: int,
    map: Seq<usize>,
    voxel_num: u32,
    corners: Seq<[bool; 8]>,
    i: u32,
    j: nat,
) -> Seq<usize>
    decreases j,
{
    if j == 0 {
        seq![]
    } else {
        seam_slice_triangles(axis, map, voxel_num, corners, i, (j - 1) as nat) + seam_row_triangles(
            axis,
            map,
            voxel_num,
            corners,
            i,
            (j - 1) as u32,
            axis_seam_size(axis, voxel_num).z as nat,
        )
    }
}

/// The triangle indices of the slices `0` to `i - 1`.
pub open spec fn seam_triangles_upto(
    axis: int,
    map: Seq<usize>,
    voxel_num: u32,
    corners: Seq<[bool; 8]>,
    i: nat,
) -> Seq<usize>
    decreases i,
{
    if i == 0 {
        seq![]
    } else {
        seam_triangles_upto(axis, map, voxel_num, corners, (i - 1) as nat) + seam_slice_triangles(
            axis,
            map,
            voxel_num,
            corners,
            (i - 1) as u32,
            axis_seam_size(axis, voxel_num).y as nat,
        )
    }
}

/// The triangle indices of the whole seam on `axis`, voxel by voxel with x
/// outermost and z innermost.
pub open spec fn seam_triangles(
    axis: int,
    map: Seq<usize>,
    voxel_num: u32,
    corners: Seq<[bool; 8]>,
) -> Seq<usize> {
    seam_triangles_upto(axis, map, voxel_num, corners, axis_seam_size(axis, voxel_num).x as nat)
}

/// An edge gives at most two triangles.
pub proof fn lemma_edge_triangles_len(
    map: Seq<usize>,
    outside_0: bool,
    outside_1: bool,
    i0: int,
    i1: int,
    i2: int,
    i3: int,
)
    ensures
        edge_triangles(map, outside_0, outside_1, i0, i1, i2, i3).len() <= 6,
{
}

/// A seam voxel gives at most six triangles, so eighteen indices a voxel
/// is room enough for the whole seam.
pub proof fn lemma_axis_triangles_len(
    axis: int,
    map: Seq<usize>,
    voxel_num: u32,
    inv: UVec3,
    corner_outside: [bool; 8],
)
    ensures
        axis_triangles(axis, map, voxel_num, inv, corner_outside).len() <= 18,
{
    let size = axis_seam_size(axis, voxel_num);
    lemma_edge_triangles_len(
        map,
        corner_outside[7],
        corner_outside[6],
        corner_voxel(size, inv, 0, 0, 0),
        corner_voxel(size, inv, 0, 1, 0),
        corner_voxel(size, inv, 0, 0, 1),
        corner_voxel(size, inv, 0, 1, 1),
    );
    lemma_edge_triangles_len(
        map,
        corner_outside[5],
        corner_outside[7],
        corner_voxel(size, inv, 0, 0, 0),
        corner_voxel(size, inv, 1, 0, 0),
        corner_voxel(size, inv, 0, 0, 1),
        corner_voxel(size, inv, 1, 0, 1),
    );
    lemma_edge_triangles_len(
        map,
        corner_outside[7],
        corner_outside[3],
        corner_voxel(size, inv, 0, 0, 0),
        corner_voxel(size, inv, 1, 0, 0),
        corner_voxel(size, inv, 0, 1, 0),
        corner_voxel(size, inv, 1, 1, 0),
    );
}

/// The index pass of a whole seam: visits every voxel of the seam on
/// `axis`, x outermost, into room for eighteen indices per voxel.
fn compute_axis_indices(
    axis: usize,
    voxel_num: u32,
    mesh_vertex_map: Vec<usize>,
    corner_outside: &Vec<[bool; 8]>,
) -> (r: ComputeIndicesContext)
    requires
        axis <= 2,
        voxel_num > 0,
        36 * (voxel_num + 1) * (voxel_num + 1) <= u32::MAX,
        mesh_vertex_map.len() == voxel_count(axis_seam_size(axis as int, voxel_num)),
        corner_outside.len() >= voxel_count(axis_seam_size(axis as int, voxel_num)),
    ensures
        ({
            let q = seam_triangles(axis as int, mesh_vertex_map@, voxel_num, corner_outside@);
            &&& r.mesh_vertex_map@ == mesh_vertex_map@
            &&& r.mesh_indices_num == q.len()
            &&& r.mesh_indices_data.len() == 18 * voxel_count(
                axis_seam_size(axis as int, voxel_num),
            )
            &&& r.mesh_indices_data@ == overwrite(
                Seq::new(r.mesh_indices_data@.len(), |i: int| 0usize),
                0,
                q,
            )
        }),
{
    let ghost ax = axis as int;
    let ghost map = mesh_vertex_map@;
    let ghost corners = corner_outside@;
    assert(voxel_num + 1 <= u32::MAX && 36 * (voxel_num + 1) * (voxel_num + 1) == 2 * (voxel_num
        + 1) * (voxel_num + 1) * 18) by (nonlinear_arith)
        requires
            36 * (voxel_num + 1) * (voxel_num + 1) <= u32::MAX,
    ;
    let n1 = voxel_num + 1;
    let size = if axis == 0 {
        UVec3::new(2, n1, n1)
    } else if axis == 1 {
        UVec3::new(n1, 2, n1)
    } else {
        UVec3::new(n1, n1, 2)
    };
    assert(size == axis_seam_size(ax, voxel_num));
    let ghost sx = size.x as int;
    let ghost sy = size.y as int;
    let ghost sz = size.z as int;
    assert(sx * sy * sz == 2 * n1 * n1) by (nonlinear_arith)
        requires
            (sx == 2 && sy == n1 && sz == n1) || (sx == n1 && sy == 2 && sz == n1) || (sx == n1
                && sy == n1 && sz == 2),
    ;
    assert(2 * n1 * n1 * 18 <= u32::MAX);
    assert(x_axis_indices_fit(voxel_num) && y_axis_indices_fit(voxel_num) && z_axis_indices_fit(
        voxel_num,
    )) by (nonlinear_arith)
        requires
            36 * n1 * n1 <= u32::MAX,
            n1 == voxel_num + 1,
            n1 >= 1,
    ;
    let count = size.x * size.y * size.z;
    let capacity = (count * 18) as usize;
    let mut context = ComputeIndicesContext {
        mesh_vertex_map,
        mesh_indices_data: vec![0usize; capacity],
        mesh_indices_num: 0,
    };
    let ghost zeros = context.mesh_indices_data@;
    assert(zeros =~= Seq::new(capacity as nat, |i: int| 0usize));
    assert(context.mesh_indices_data@ =~= overwrite(zeros, 0, seq![]));
    let mut i: u32 = 0;
    while i < size.x
        invariant
            ax == axis as int,
            ax <= 2,
            size == axis_seam_size(ax, voxel_num),
            sx == size.x,
            sy == size.y,
            sz == size.z,
            voxel_num > 0,
            sx * sy * sz == count,
            count <= u32::MAX,
            capacity == 18 * count,
            x_axis_indices_fit(voxel_num),
            y_axis_indices_fit(voxel_num),
            z_axis_indices_fit(voxel_num),
            corners == corner_outside@,
            corners.len() >= count,
            zeros.len() == capacity,
            i <= sx,
            context.mesh_vertex_map@ == map,
            map.len() == count,
            context.mesh_indices_data.len() == capacity,
            context.mesh_indices_num == seam_triangles_upto(ax, map, voxel_num, corners, i as nat).len(),
            context.mesh_indices_data@ == overwrite(
                zeros,
                0,
                seam_triangles_upto(ax, map, voxel_num, corners, i as nat),
            ),
            seam_triangles_upto(ax, map, voxel_num, corners, i as nat).len() <= 18 * (i * sy
                * sz),
        decreases sx - i,
    {
        let mut j: u32 = 0;
        while j < size.y
            invariant
                ax == axis as int,
                ax <= 2,
                size == axis_seam_size(ax, voxel_num),
                sx == size.x,
                sy == size.y,
                sz == size.z,
                voxel_num > 0,
                sx * sy * sz == count,
                count <= u32::MAX,
                capacity == 18 * count,
                x_axis_indices_fit(voxel_num),
                y_axis_indices_fit(voxel_num),
                z_axis_indices_fit(voxel_num),
                corners == corner_outside@,
                corners.len() >= count,
                zeros.len() == capacity,
                i < sx,
                j <= sy,
                context.mesh_vertex_map@ == map,
                map.len() == count,
                context.mesh_indices_data.len() == capacity,
                context.mesh_indices_num == (seam_triangles_upto(
                    ax,
                    map,
                    voxel_num,
                    corners,
                    i as nat,
                ) + seam_slice_triangles(ax, map, voxel_num, corners, i, j as nat)).len(),
                context.mesh_indices_data@ == overwrite(
                    zeros,
                    0,
                    seam_triangles_upto(ax, map, voxel_num, corners, i as nat)
                        + seam_slice_triangles(ax, map, voxel_num, corners, i, j as nat),
                ),
                (seam_triangles_upto(ax, map, voxel_num, corners, i as nat) + seam_slice_triangles(
                    ax,
                    map,
                    voxel_num,
                    corners,
                    i,
                    j as nat,
                )).len() <= 18 * (i * sy * sz + j * sz),
            decreases sy - j,
        {
            let mut k: u32 = 0;
            while k < size.z
                invariant
                    ax == axis as int,
                    ax <= 2,
                    size == axis_seam_size(ax, voxel_num),
                    sx == size.x,
                    sy == size.y,
                    sz == size.z,
                    voxel_num > 0,
                    sx * sy * sz == count,
                    count <= u32::MAX,
                    capacity == 18 * count,
                    x_axis_indices_fit(voxel_num),
                    y_axis_indices_fit(voxel_num),
                    z_axis_indices_fit(voxel_num),
                    corners == corner_outside@,
                    corners.len() >= count,
                    zeros.len() == capacity,
                    i < sx,
                    j < sy,
                    k <= sz,
                    context.mesh_vertex_map@ == map,
                    map.len() == count,
                    context.mesh_indices_data.len() == capacity,
                    context.mesh_indices_num == (seam_triangles_upto(
                        ax,
                        map,
                        voxel_num,
                        corners,
                        i as nat,
                    ) + seam_slice_triangles(ax, map, voxel_num, corners, i, j as nat)
                        + seam_row_triangles(ax, map, voxel_num, corners, i, j, k as nat)).len(),
                    context.mesh_indices_data@ == overwrite(
                        zeros,
                        0,
                        seam_triangles_upto(ax, map, voxel_num, corners, i as nat)
                            + seam_slice_triangles(ax, map, voxel_num, corners, i, j as nat)
                            + seam_row_triangles(ax, map, voxel_num, corners, i, j, k as nat),
                    ),
                    (seam_triangles_upto(ax, map, voxel_num, corners, i as nat)
                        + seam_slice_triangles(ax, map, voxel_num, corners, i, j as nat)
                        + seam_row_triangles(ax, map, voxel_num, corners, i, j, k as nat)).len()
                        <= 18 * (i * sy * sz + j * sz + k),
                decreases sz - k,
            {
                let ghost prefix = seam_triangles_upto(ax, map, voxel_num, corners, i as nat)
                    + seam_slice_triangles(ax, map, voxel_num, corners, i, j as nat)
                    + seam_row_triangles(ax, map, voxel_num, corners, i, j, k as nat);
                proof {
                    lemma_linear_index_in_box(size, i as int, j as int, k as int);
                }
                let index = get_voxel_internal_vertex_index(size, i, j, k);
                let corner = corner_outside[index];
                let inv = UVec3::new(i, j, k);
                let ghost q = axis_triangles(ax, map, voxel_num, inv, corner);
                proof {
                    lemma_axis_triangles_len(ax, map, voxel_num, inv, corner);
                    assert(18 * (i * sy * sz + j * sz + k) + 18 <= 18 * count) by (nonlinear_arith)
                        requires
                            0 <= i < sx,
                            0 <= j < sy,
                            0 <= k < sz,
                            sx * sy * sz == count,
                    ;
                }
                if axis == 0 {
                    compute_indices_x_axis(&mut context, voxel_num, inv, corner);
                } else if axis == 1 {
                    compute_indices_y_axis(&mut context, voxel_num, inv, corner);
                } else {
                    compute_indices_z_axis(&mut context, voxel_num, inv, corner);
                }
                proof {
                    lemma_overwrite_twice(zeros, 0, prefix, q);
                    assert(seam_row_triangles(ax, map, voxel_num, corners, i, j, (k + 1) as nat)
                        == seam_row_triangles(ax, map, voxel_num, corners, i, j, k as nat) + q);
                    assert(prefix + q =~= seam_triangles_upto(ax, map, voxel_num, corners, i as nat)
                        + seam_slice_triangles(ax, map, voxel_num, corners, i, j as nat)
                        + seam_row_triangles(ax, map, voxel_num, corners, i, j, (k + 1) as nat));
                }
                k = k + 1;
            }
            proof {
                assert(seam_slice_triangles(ax, map, voxel_num, corners, i, (j + 1) as nat)
                    == seam_slice_triangles(ax, map, voxel_num, corners, i, j as nat)
                    + seam_row_triangles(ax, map, voxel_num, corners, i, j, sz as nat));
                assert(seam_triangles_upto(ax, map, voxel_num, corners, i as nat)
                    + seam_slice_triangles(ax, map, voxel_num, corners, i, j as nat)
                    + seam_row_triangles(ax, map, voxel_num, corners, i, j, sz as nat)
                    =~= seam_triangles_upto(ax, map, voxel_num, corners, i as nat)
                    + seam_slice_triangles(ax, map, voxel_num, corners, i, (j + 1) as nat));
                assert(i * sy * sz + j * sz + sz == i * sy * sz + (j + 1) * sz) by (nonlinear_arith);
            }
            j = j + 1;
        }
        proof {
            assert(seam_triangles_upto(ax, map, voxel_num, corners, (i + 1) as nat)
                == seam_triangles_upto(ax, map, voxel_num, corners, i as nat)
                + seam_slice_triangles(ax, map, voxel_num, corners, i, sy as nat));
            assert(i * sy * sz + sy * sz == (i + 1) * sy * sz) by (nonlinear_arith);
        }
        i = i + 1;
    }
    assert(zeros =~= Seq::new(context.mesh_indices_data@.len(), |i: int| 0usize));
    context
}

/// The index pass of the x seam of a chunk of `voxel_num` voxels per side,
/// over the seam's mesh vertex map; `corner_outside` holds, at each seam
/// voxel's linear index, which of its corners lie outside the surface.
pub fn compute_x_axis_indices(
    voxel_num: u32,
    mesh_vertex_map: Vec<usize>,
    corner_outside: &Vec<[bool; 8]>,
) -> (r: ComputeIndicesContext)
    requires
        voxel_num > 0,
        36 * (voxel_num + 1) * (voxel_num + 1) <= u32::MAX,
        mesh_vertex_map.len() == voxel_count(x_axis_seam_size(voxel_num)),
        corner_outside.len() >= voxel_count(x_axis_seam_size(voxel_num)),
    ensures
        ({
            let q = seam_triangles(0, mesh_vertex_map@, voxel_num, corner_outside@);
            &&& r.mesh_vertex_map@ == mesh_vertex_map@
            &&& r.mesh_indices_num == q.len()
            &&& r.mesh_indices_data.len() == 18 * voxel_count(x_axis_seam_size(voxel_num))
            &&& r.mesh_indices_data@ == overwrite(
                Seq::new(r.mesh_indices_data@.len(), |i: int| 0usize),
                0,
                q,
            )
        }),
{
    compute_axis_indices(0, voxel_num, mesh_vertex_map, corner_outside)
}

/// The index pass of the y seam.
pub fn compute_y_axis_indices(
    voxel_num: u32,
    mesh_vertex_map: Vec<usize>,
    corner_outside: &Vec<[bool; 8]>,
) -> (r: ComputeIndicesContext)
    requires
        voxel_num > 0,
        36 * (voxel_num + 1) * (voxel_num + 1) <= u32::MAX,
        mesh_vertex_map.len() == voxel_count(y_axis_seam_size(voxel_num)),
        corner_outside.len() >= voxel_count(y_axis_seam_size(voxel_num)),
    ensures
        ({
            let q = seam_triangles(1, mesh_vertex_map@, voxel_num, corner_outside@);
            &&& r.mesh_vertex_map@ == mesh_vertex_map@
            &&& r.mesh_indices_num == q.len()
            &&& r.mesh_indices_data.len() == 18 * voxel_count(y_axis_seam_size(voxel_num))
            &&& r.mesh_indices_data@ == overwrite(
                Seq::new(r.mesh_indices_data@.len(), |i: int| 0usize),
                0,
                q,
            )
        }),
{
    compute_axis_indices(1, voxel_num, mesh_vertex_map, corner_outside)
}

/// The index pass of the z seam.
pub fn compute_z_axis_indices(
    voxel_num: u32,
    mesh_vertex_map: Vec<usize>,
    corner_outside: &Vec<[bool; 8]>,
) -> (r: ComputeIndicesContext)
    requires
        voxel_num > 0,
        36 * (voxel_num + 1) * (voxel_num + 1) <= u32::MAX,
        mesh_vertex_map.len() == voxel_count(z_axis_seam_size(voxel_num)),
        corner_outside.len() >= voxel_count(z_axis_seam_size(voxel_num)),
    ensures
        ({
            let q = seam_triangles(2, mesh_vertex_map@, voxel_num, corner_outside@);
            &&& r.mesh_vertex_map@ == mesh_vertex_map@
            &&& r.mesh_indices_num == q.len()
            &&& r.mesh_indices_data.len() == 18 * voxel_count(z_axis_seam_size(voxel_num))
            &&& r.mesh_indices_data@ == overwrite(
                Seq::new(r.mesh_indices_data@.len(), |i: int| 0usize),
                0,
                q,
            )
        }),
{
    compute_axis_indices(2, voxel_num, mesh_vertex_map, corner_outside)
}

/// Every index in `q` is a mesh vertex of the map, never the empty mark.
pub open spec fn indices_are_vertices(q: Seq<usize>, map: Seq<usize>) -> bool {
    forall|t: int| 0 <= t < q.len() ==> #[trigger] q[t] != U32_MAX && map.contains(q[t])
}

proof fn lemma_indices_concat(a: Seq<usize>, b: Seq<usize>, map: Seq<usize>)
    requires
        indices_are_vertices(a, map),
        indices_are_vertices(b, map),
    ensures
        indices_are_vertices(a + b, map),
{
    assert forall|t: int| 0 <= t < (a + b).len() implies #[trigger] (a + b)[t] != U32_MAX
        && map.contains((a + b)[t]) by {
        if t < a.len() {
            assert((a + b)[t] == a[t]);
        } else {
            assert((a + b)[t] == b[t - a.len()]);
        }
    }
}

proof fn lemma_edge_indices_are_vertices(
    map: Seq<usize>,
    outside_0: bool,
    outside_1: bool,
    i0: int,
    i1: int,
    i2: int,
    i3: int,
)
    requires
        0 <= i0 < map.len(),
        0 <= i1 < map.len(),
        0 <= i2 < map.len(),
        0 <= i3 < map.len(),
        map[i0] <= u32::MAX,
        map[i1] <= u32::MAX,
        map[i2] <= u32::MAX,
        map[i3] <= u32::MAX,
    ensures
        indices_are_vertices(edge_triangles(map, outside_0, outside_1, i0, i1, i2, i3), map),
{
    lemma_edge_triangles_well_formed(map, outside_0, outside_1, i0, i1, i2, i3);
    let q = edge_triangles(map, outside_0, outside_1, i0, i1, i2, i3);
    assert forall|t: int| 0 <= t < q.len() implies #[trigger] q[t] != U32_MAX && map.contains(
        q[t],
    ) by {
        assert(q[t] != U32_MAX);
        if q[t] == map[i0] {
            assert(map[i0] == q[t]);
        } else if q[t] == map[i1] {
            assert(map[i1] == q[t]);
        } else if q[t] == map[i2] {
            assert(map[i2] == q[t]);
        } else {
            assert(map[i3] == q[t]);
        }
    }
}

/// The voxels of a seam box, with the map's entries fitting in 32 bits.
pub open spec fn seam_map_ok(axis: int, map: Seq<usize>, voxel_num: u32) -> bool {
    &&& 0 <= axis <= 2
    &&& voxel_num > 0
    &&& 36 * (voxel_num + 1) * (voxel_num + 1) <= u32::MAX
    &&& map.len() >= voxel_count(axis_seam_size(axis, voxel_num))
    &&& forall|v: int| 0 <= v < map.len() ==> #[trigger] map[v] <= u32::MAX
}

proof fn lemma_voxel_indices_are_vertices(
    axis: int,
    map: Seq<usize>,
    voxel_num: u32,
    inv: UVec3,
    corner_outside: [bool; 8],
)
    requires
        seam_map_ok(axis, map, voxel_num),
        inv.x < axis_seam_size(axis, voxel_num).x,
        inv.y < axis_seam_size(axis, voxel_num).y,
        inv.z < axis_seam_size(axis, voxel_num).z,
    ensures
        indices_are_vertices(axis_triangles(axis, map, voxel_num, inv, corner_outside), map),
{
    let size = axis_seam_size(axis, voxel_num);
    let n1 = voxel_num + 1;
    assert(n1 <= u32::MAX) by (nonlinear_arith)
        requires
            36 * n1 * n1 <= u32::MAX,
    ;
    assert(axis_triangles(axis, map, voxel_num, inv, corner_outside) == seam_voxel_triangles(
        map,
        size,
        inv,
        corner_outside,
    ));
    let far_x = inv.x + 1 == size.x;
    let far_y = inv.y + 1 == size.y;
    let far_z = inv.z + 1 == size.z;
    let empty: Seq<usize> = seq![];
    let along_x = if !far_y && !far_z {
        edge_triangles(
            map,
            corner_outside[7],
            corner_outside[6],
            corner_voxel(size, inv, 0, 0, 0),
            corner_voxel(size, inv, 0, 1, 0),
            corner_voxel(size, inv, 0, 0, 1),
            corner_voxel(size, inv, 0, 1, 1),
        )
    } else {
        empty
    };
    let along_y = if !far_x && !far_z {
        edge_triangles(
            map,
            corner_outside[5],
            corner_outside[7],
            corner_voxel(size, inv, 0, 0, 0),
            corner_voxel(size, inv, 1, 0, 0),
            corner_voxel(size, inv, 0, 0, 1),
            corner_voxel(size, inv, 1, 0, 1),
        )
    } else {
        empty
    };
    let along_z = if !far_x && !far_y {
        edge_triangles(
            map,
            corner_outside[7],
            corner_outside[3],
            corner_voxel(size, inv, 0, 0, 0),
            corner_voxel(size, inv, 1, 0, 0),
            corner_voxel(size, inv, 0, 1, 0),
            corner_voxel(size, inv, 1, 1, 0),
        )
    } else {
        empty
    };
    let (x, y, z) = (inv.x as int, inv.y as int, inv.z as int);
    lemma_linear_index_in_box(size, x, y, z);
    if !far_y && !far_z {
        lemma_linear_index_in_box(size, x, y + 1, z);
        lemma_linear_index_in_box(size, x, y, z + 1);
        lemma_linear_index_in_box(size, x, y + 1, z + 1);
        lemma_edge_indices_are_vertices(
            map,
            corner_outside[7],
            corner_outside[6],
            corner_voxel(size, inv, 0, 0, 0),
            corner_voxel(size, inv, 0, 1, 0),
            corner_voxel(size, inv, 0, 0, 1),
            corner_voxel(size, inv, 0, 1, 1),
        );
    }
    if !far_x && !far_z {
        lemma_linear_index_in_box(size, x + 1, y, z);
        lemma_linear_index_in_box(size, x, y, z + 1);
        lemma_linear_index_in_box(size, x + 1, y, z + 1);
        lemma_edge_indices_are_vertices(
            map,
            corner_outside[5],
            corner_outside[7],
            corner_voxel(size, inv, 0, 0, 0),
            corner_voxel(size, inv, 1, 0, 0),
            corner_voxel(size, inv, 0, 0, 1),
            corner_voxel(size, inv, 1, 0, 1),
        );
    }
    if !far_x && !far_y {
        lemma_linear_index_in_box(size, x + 1, y, z);
        lemma_linear_index_in_box(size, x, y + 1, z);
        lemma_linear_index_in_box(size, x + 1, y + 1, z);
        lemma_edge_indices_are_vertices(
            map,
            corner_outside[7],
            corner_outside[3],
            corner_voxel(size, inv, 0, 0, 0),
            corner_voxel(size, inv, 1, 0, 0),
            corner_voxel(size, inv, 0, 1, 0),
            corner_voxel(size, inv, 1, 1, 0),
        );
    }
    lemma_indices_concat(along_x, along_y, map);
    lemma_indices_concat(along_x + along_y, along_z, map);
}

proof fn lemma_row_indices_are_vertices(
    axis: int,
    map: Seq<usize>,
    voxel_num: u32,
    corners: Seq<[bool; 8]>,
    i: u32,
    j: u32,
    k: nat,
)
    requires
        seam_map_ok(axis, map, voxel_num),
        i < axis_seam_size(axis, voxel_num).x,
        j < axis_seam_size(axis, voxel_num).y,
        k <= axis_seam_size(axis, voxel_num).z,
    ensures
        indices_are_vertices(seam_row_triangles(axis, map, voxel_num, corners, i, j, k), map),
    decreases k,
{
    if k > 0 {
        let z = (k - 1) as int;
        let inv = UVec3 { x: i, y: j, z: z as u32 };
        let c = corners[voxel_linear_index(axis_seam_size(axis, voxel_num), i as int, j as int, z)];
        lemma_row_indices_are_vertices(axis, map, voxel_num, corners, i, j, (k - 1) as nat);
        lemma_voxel_indices_are_vertices(axis, map, voxel_num, inv, c);
        lemma_indices_concat(
            seam_row_triangles(axis, map, voxel_num, corners, i, j, (k - 1) as nat),
            axis_triangles(axis, map, voxel_num, inv, c),
            map,
        );
    }
}

proof fn lemma_slice_indices_are_vertices(
    axis: int,
    map: Seq<usize>,
    voxel_num: u32,
    corners: Seq<[bool; 8]>,
    i: u32,
    j: nat,
)
    requires
        seam_map_ok(axis, map, voxel_num),
        i < axis_seam_size(axis, voxel_num).x,
        j <= axis_seam_size(axis, voxel_num).y,
    ensures
        indices_are_vertices(seam_slice_triangles(axis, map, voxel_num, corners, i, j), map),
    decreases j,
{
    if j > 0 {
        let sz = axis_seam_size(axis, voxel_num).z as nat;
        lemma_slice_indices_are_vertices(axis, map, voxel_num, corners, i, (j - 1) as nat);
        lemma_row_indices_are_vertices(axis, map, voxel_num, corners, i, (j - 1) as u32, sz);
        lemma_indices_concat(
            seam_slice_triangles(axis, map, voxel_num, corners, i, (j - 1) as nat),
            seam_row_triangles(axis, map, voxel_num, corners, i, (j - 1) as u32, sz),
            map,
        );
    }
}

proof fn lemma_upto_indices_are_vertices(
    axis: int,
    map: Seq<usize>,
    voxel_num: u32,
    corners: Seq<[bool; 8]>,
    i: nat,
)
    requires
        seam_map_ok(axis, map, voxel_num),
        i <= axis_seam_size(axis, voxel_num).x,
    ensures
        indices_are_vertices(seam_triangles_upto(axis, map, voxel_num, corners, i), map),
    decreases i,
{
    if i > 0 {
        let sy = axis_seam_size(axis, voxel_num).y as nat;
        lemma_upto_indices_are_vertices(axis, map, voxel_num, corners, (i - 1) as nat);
        lemma_slice_indices_are_vertices(axis, map, voxel_num, corners, (i - 1) as u32, sy);
        lemma_indices_concat(
            seam_triangles_upto(axis, map, voxel_num, corners, (i - 1) as nat),
            seam_slice_triangles(axis, map, voxel_num, corners, (i - 1) as u32, sy),
            map,
        );
    }
}

/// Every index that the pass over a whole seam writes is the mesh vertex of
/// one of the seam's voxels, never the empty mark: where the map's entries
/// fit in 32 bits.
pub proof fn lemma_seam_triangles_are_vertices(
    axis: int,
    map: Seq<usize>,
    voxel_num: u32,
    corners: Seq<[bool; 8]>,
)
    requires
        seam_map_ok(axis, map, voxel_num),
    ensures
        indices_are_vertices(seam_triangles(axis, map, voxel_num, corners), map),
{
    lemma_upto_indices_are_vertices(
        axis,
        map,
        voxel_num,
        corners,
        axis_seam_size(axis, voxel_num).x as nat,
    );
}

/// The coordinate on `k` of seam voxel `inv` in the chunk that the seam on
/// `axis` starts in: the seam starts one voxel before the chunk's far face.
pub open spec fn seam_coord(axis: int, voxel_num: u32, inv: UVec3, k: nat) -> int {
    inv.axis_value(k) + if k == axis {
        voxel_num - 1
    } else {
        0int
    }
}

/// Which of the eight chunks at the seam's corner the voxel lies in, with
/// `x` as bit 1, `y` as bit 2 and `z` as bit 4.
pub open spec fn seam_chunk_index(axis: int, voxel_num: u32, inv: UVec3) -> int {
    seam_coord(axis, voxel_num, inv, 0) / voxel_num as int + 2 * (seam_coord(axis, voxel_num, inv, 1)
        / voxel_num as int) + 4 * (seam_coord(axis, voxel_num, inv, 2) / voxel_num as int)
}

/// Which half of its chunk along `k` the voxel lies in.
pub open spec fn seam_half(axis: int, voxel_num: u32, inv: UVec3, k: nat) -> int {
    (seam_coord(axis, voxel_num, inv, k) % voxel_num as int) / (voxel_num / 2) as int
}

/// The entry of the level-of-detail table that holds the voxel's half
/// chunk: two entries a chunk, by the half along z.
pub open spec fn seam_lod_slot(axis: int, voxel_num: u32, inv: UVec3) -> int {
    2 * seam_chunk_index(axis, voxel_num, inv) + seam_half(axis, voxel_num, inv, 2)
}

/// The component of that entry, by the halves along x and y.
pub open spec fn seam_lod_component(axis: int, voxel_num: u32, inv: UVec3) -> int {
    seam_half(axis, voxel_num, inv, 0) + 2 * seam_half(axis, voxel_num, inv, 1)
}

/// Component `i` of `a`.
pub open spec fn uvec4_at(a: UVec4, i: int) -> u32 {
    if i == 0 {
        a.x
    } else if i == 1 {
        a.y
    } else if i == 2 {
        a.z
    } else {
        a.w
    }
}

/// The level of detail of the voxel's half chunk.
pub open spec fn seam_lod(axis: int, voxel_num: u32, lods: [UVec4; 16], inv: UVec3) -> u32 {
    uvec4_at(
        lods[seam_lod_slot(axis, voxel_num, inv)],
        seam_lod_component(axis, voxel_num, inv),
    )
}

/// The voxels a level-of-detail voxel spans along an axis: `2^lod`, and the
/// largest `u32` where that does not fit.
pub open spec fn lod_scale(lod: u32) -> u32 {
    if lod < 32 {
        pow2(lod as nat) as u32
    } else {
        u32::MAX
    }
}

/// Whether `inv` lies in the seam on `axis` (across the seam, in the two
/// other axes).
pub open spec fn in_axis_seam(axis: int, voxel_num: u32, inv: UVec3) -> bool {
    &&& (axis == 0 || inv.x <= voxel_num)
    &&& (axis == 1 || inv.y <= voxel_num)
    &&& (axis == 2 || inv.z <= voxel_num)
}

/// The block of seam voxels that one level-of-detail voxel spans: `scale`
/// along the two axes across the seam, one along it.
pub open spec fn axis_stride(axis: int, scale: u32) -> UVec3 {
    if axis == 0 {
        UVec3 { x: 1, y: scale, z: scale }
    } else if axis == 1 {
        UVec3 { x: scale, y: 1, z: scale }
    } else {
        UVec3 { x: scale, y: scale, z: 1 }
    }
}

/// The block that seam voxel `inv` starts, by the level of detail of its
/// half chunk: none where `inv` lies outside the seam or inside another
/// voxel's block.
pub open spec fn seam_voxel_stride(
    axis: int,
    voxel_num: u32,
    lods: [UVec4; 16],
    inv: UVec3,
) -> Option<UVec3> {
    if !in_axis_seam(axis, voxel_num, inv) {
        None
    } else {
        let cs = axis_stride(axis, lod_scale(seam_lod(axis, voxel_num, lods, inv)));
        if inv.x % cs.x != 0 || inv.y % cs.y != 0 || inv.z % cs.z != 0 {
            None
        } else {
            Some(cs)
        }
    }
}

/// Component `i` of `a`.
fn uvec4_get(a: UVec4, i: usize) -> (r: u32)
    requires
        i < 4,
    ensures
        r == uvec4_at(a, i as int),
{
    if i == 0 {
        a.x
    } else if i == 1 {
        a.y
    } else if i == 2 {
        a.z
    } else {
        a.w
    }
}

/// `2^lod`, or the largest `u32` where that does not fit.
pub fn get_lod_scale(lod: u32) -> (r: u32)
    ensures
        r == lod_scale(lod),
        r >= 1,
{
    if lod < 32 {
        proof {
            lemma_pow2_strictly_increases(lod as nat, 32);
            lemma2_to64();
            lemma_u32_shl_is_mul(1, lod);
        }
        1u32 << lod
    } else {
        u32::MAX
    }
}

/// The chunk and the half of it that seam coordinate `s` lies in.
fn split_seam_coord(s: u32, n: u32) -> (r: (u32, u32))
    requires
        n >= 2,
    ensures
        r.0 == s / n,
        r.1 == (s % n) / (n / 2),
{
    let c = s / n;
    proof {
        lemma_fundamental_div_mod(s as int, n as int);
        assert(n * c == c * n) by (nonlinear_arith);
    }
    (c, (s - c * n) / (n / 2))
}

/// The block of the seam on `axis` (0: x, 1: y, 2: z) of a chunk of
/// `voxel_num` voxels per side that seam voxel `invocation_id` starts, by
/// the level of detail of its half chunk in `terrain_chunks_lod`; `None`
/// where the voxel lies outside the seam or inside another voxel's block.
pub fn get_seam_voxel_stride(
    axis: usize,
    voxel_num: u32,
    terrain_chunks_lod: &[UVec4; 16],
    invocation_id: UVec3,
) -> (r: Option<UVec3>)
    requires
        axis <= 2,
        in_axis_seam(axis as int, voxel_num, invocation_id) ==> {
            &&& voxel_num >= 2
            &&& seam_coord(axis as int, voxel_num, invocation_id, axis as nat) <= u32::MAX
            &&& seam_lod_slot(axis as int, voxel_num, invocation_id) < 16
            &&& seam_lod_component(axis as int, voxel_num, invocation_id) < 4
        },
    ensures
        r == seam_voxel_stride(axis as int, voxel_num, *terrain_chunks_lod, invocation_id),
{
    let inv = invocation_id;
    let ghost ax = axis as int;
    if !((axis == 0 || inv.x <= voxel_num) && (axis == 1 || inv.y <= voxel_num) && (axis == 2
        || inv.z <= voxel_num)) {
        return None;
    }
    let n = voxel_num;
    let base = n - 1;
    let sx = if axis == 0 {
        base + inv.x
    } else {
        inv.x
    };
    let sy = if axis == 1 {
        base + inv.y
    } else {
        inv.y
    };
    let sz = if axis == 2 {
        base + inv.z
    } else {
        inv.z
    };
    assert(sx == seam_coord(ax, n, inv, 0));
    assert(sy == seam_coord(ax, n, inv, 1));
    assert(sz == seam_coord(ax, n, inv, 2));
    let (cx, hx) = split_seam_coord(sx, n);
    let (cy, hy) = split_seam_coord(sy, n);
    let (cz, hz) = split_seam_coord(sz, n);
    let index = cx + cy * 2 + cz * 4;
    let lod_index = hx + hy * 2;
    let slot = index * 2 + hz;
    let lod = uvec4_get(terrain_chunks_lod[slot as usize], lod_index as usize);
    let scale = get_lod_scale(lod);
    let cs = if axis == 0 {
        UVec3::new(1, scale, scale)
    } else if axis == 1 {
        UVec3::new(scale, 1, scale)
    } else {
        UVec3::new(scale, scale, 1)
    };
    if inv.x % cs.x != 0 || inv.y % cs.y != 0 || inv.z % cs.z != 0 {
        return None;
    }
    Some(cs)
}

/// Two voxels of a box with one linear index are one voxel.
pub proof fn lemma_linear_index_injective(
    size: UVec3,
    x: int,
    y: int,
    z: int,
    a: int,
    b: int,
    c: int,
)
    requires
        0 <= x < size.x,
        0 <= y < size.y,
        0 <= z < size.z,
        0 <= a < size.x,
        0 <= b < size.y,
        0 <= c < size.z,
        voxel_linear_index(size, x, y, z) == voxel_linear_index(size, a, b, c),
    ensures
        x == a && y == b && z == c,
{
    let sx = size.x as int;
    let sy = size.y as int;
    let v = voxel_linear_index(size, x, y, z);
    assert(v == (y + z * sy) * sx + x) by (nonlinear_arith)
        requires
            v == x + y * sx + z * sx * sy,
    ;
    assert(v == (b + c * sy) * sx + a) by (nonlinear_arith)
        requires
            v == a + b * sx + c * sx * sy,
    ;
    lemma_fundamental_div_mod_converse(v, sx, y + z * sy, x);
    lemma_fundamental_div_mod_converse(v, sx, b + c * sy, a);
    lemma_fundamental_div_mod_converse(y + z * sy, sy, z, y);
    lemma_fundamental_div_mod_converse(b + c * sy, sy, c, b);
}

/// The local index of voxel `(x, y, z)` of a block of `cs` voxels, `x`
/// slowest and `z` fastest.
pub open spec fn block_local_index(cs: UVec3, x: int, y: int, z: int) -> int {
    voxel_linear_index(UVec3 { x: cs.z, y: cs.y, z: cs.x }, z, y, x)
}

/// Whether voxel `v` of a seam of `size` voxels is one of the block of `cs`
/// voxels from `inv` with local index below `i`.
pub open spec fn block_voxel_before(size: UVec3, inv: UVec3, cs: UVec3, i: int, v: int) -> bool {
    exists|x: int, y: int, z: int|
        0 <= x < cs.x && 0 <= y < cs.y && 0 <= z < cs.z && block_local_index(cs, x, y, z) < i
            && inv.x + x < size.x && inv.y + y < size.y && inv.z + z < size.z && v
            == #[trigger] voxel_linear_index(size, inv.x + x, inv.y + y, inv.z + z)
}

/// Whether voxel `v` of a seam of `size` voxels is one of the block of `cs`
/// voxels from `inv`.
pub open spec fn block_voxel(size: UVec3, inv: UVec3, cs: UVec3, v: int) -> bool {
    block_voxel_before(size, inv, cs, voxel_count(cs), v)
}

/// Marks the seam voxels of the block of `coord_stride` voxels from
/// `invocation_id` as holding mesh vertex `value` (or, with `U32_MAX`, none):
/// the voxels of the block that lie inside the seam of `seam_chunk_size`
/// voxels, and no other.
pub fn set_block_vertex(
    mesh_vertex_map: &mut Vec<usize>,
    invocation_id: UVec3,
    coord_stride: UVec3,
    seam_chunk_size: UVec3,
    value: usize,
)
    requires
        coord_stride.x * coord_stride.y <= u32::MAX,
        coord_stride.y * coord_stride.z <= u32::MAX,
        voxel_count(coord_stride) <= u32::MAX,
        voxel_count(coord_stride) > 0 ==> {
            &&& invocation_id.x + coord_stride.x <= u32::MAX + 1
            &&& invocation_id.y + coord_stride.y <= u32::MAX + 1
            &&& invocation_id.z + coord_stride.z <= u32::MAX + 1
        },
        voxel_count(seam_chunk_size) <= u32::MAX,
        old(mesh_vertex_map).len() >= voxel_count(seam_chunk_size),
    ensures
        final(mesh_vertex_map).len() == old(mesh_vertex_map).len(),
        forall|v: int|
            0 <= v < old(mesh_vertex_map).len() ==> #[trigger] final(mesh_vertex_map)@[v] == if block_voxel(
                seam_chunk_size,
                invocation_id,
                coord_stride,
                v,
            ) {
                value
            } else {
                old(mesh_vertex_map)@[v]
            },
{
    let ghost old_map = mesh_vertex_map@;
    let cs = coord_stride;
    let size = seam_chunk_size;
    let inv = invocation_id;
    let index = cs.x * cs.y * cs.z;
    let stride0 = cs.y * cs.z;
    let stride1 = cs.z;
    let ghost rev = UVec3 { x: cs.z, y: cs.y, z: cs.x };
    assert(voxel_count(rev) == index) by (nonlinear_arith)
        requires
            index == cs.x * cs.y * cs.z,
            rev.x == cs.z,
            rev.y == cs.y,
            rev.z == cs.x,
    ;
    let mut i: u32 = 0;
    while i < index
        invariant
            index == voxel_count(cs),
            voxel_count(rev) == index,
            rev == (UVec3 { x: cs.z, y: cs.y, z: cs.x }),
            stride0 == cs.y * cs.z,
            stride1 == cs.z,
            index > 0 ==> {
                &&& inv.x + cs.x <= u32::MAX + 1
                &&& inv.y + cs.y <= u32::MAX + 1
                &&& inv.z + cs.z <= u32::MAX + 1
            },
            voxel_count(size) <= u32::MAX,
            old_map.len() >= voxel_count(size),
            i <= index,
            mesh_vertex_map.len() == old_map.len(),
            forall|v: int|
                0 <= v < old_map.len() ==> #[trigger] mesh_vertex_map@[v] == if block_voxel_before(
                    size,
                    inv,
                    cs,
                    i as int,
                    v,
                ) {
                    value
                } else {
                    old_map[v]
                },
        decreases index - i,
    {
        let ghost ii = i as int;
        assert(stride0 > 0 && stride1 > 0) by (nonlinear_arith)
            requires
                0 <= ii < index,
                index == cs.x * cs.y * cs.z,
                stride0 == cs.y * cs.z,
                stride1 == cs.z,
        ;
        let x = i / stride0;
        proof {
            lemma_fundamental_div_mod(ii, stride0 as int);
            assert(stride0 * x == x * stride0) by (nonlinear_arith);
        }
        let r = i - x * stride0;
        let y = r / stride1;
        proof {
            lemma_fundamental_div_mod(r as int, stride1 as int);
            assert(stride1 * y == y * stride1) by (nonlinear_arith);
        }
        let z = r - y * stride1;
        proof {
            assert(ii == block_local_index(cs, x as int, y as int, z as int)) by (nonlinear_arith)
                requires
                    ii == stride0 * x + r,
                    r == stride1 * y + z,
                    stride0 == cs.y * cs.z,
                    stride1 == cs.z,
                    block_local_index(cs, x as int, y as int, z as int) == z + y * cs.z + x * cs.z
                        * cs.y,
            ;
            assert(x < cs.x) by (nonlinear_arith)
                requires
                    ii < index,
                    index == cs.x * cs.y * cs.z,
                    ii == stride0 * x + r,
                    stride0 == cs.y * cs.z,
                    0 <= r,
            ;
            assert(y < cs.y) by (nonlinear_arith)
                requires
                    r < stride0,
                    stride0 == cs.y * cs.z,
                    r == stride1 * y + z,
                    stride1 == cs.z,
                    0 <= z,
            ;
        }
        let ghost before = mesh_vertex_map@;
        if inv.x + x < size.x && inv.y + y < size.y && inv.z + z < size.z {
            let (tx, ty, tz) = (inv.x + x, inv.y + y, inv.z + z);
            proof {
                lemma_linear_index_in_box(size, tx as int, ty as int, tz as int);
            }
            let vi = get_voxel_internal_vertex_index(size, tx, ty, tz);
            mesh_vertex_map[vi] = value;
            proof {
                assert forall|v: int| 0 <= v < old_map.len() implies #[trigger] mesh_vertex_map@[v]
                    == if block_voxel_before(size, inv, cs, ii + 1, v) {
                    value
                } else {
                    old_map[v]
                } by {
                    if v == vi {
                        assert(block_voxel_before(size, inv, cs, ii + 1, v)) by {
                            assert(v == voxel_linear_index(size, inv.x + x, inv.y + y, inv.z + z));
                        }
                    } else {
                        if block_voxel_before(size, inv, cs, ii + 1, v) {
                            let (a, b, c) = choose|a: int, b: int, c: int|
                                0 <= a < cs.x && 0 <= b < cs.y && 0 <= c < cs.z && block_local_index(
                                    cs,
                                    a,
                                    b,
                                    c,
                                ) < ii + 1 && inv.x + a < size.x && inv.y + b < size.y && inv.z + c
                                    < size.z && v == #[trigger] voxel_linear_index(
                                    size,
                                    inv.x + a,
                                    inv.y + b,
                                    inv.z + c,
                                );
                            if block_local_index(cs, a, b, c) == ii {
                                lemma_linear_index_injective(rev, c, b, a, z as int, y as int, x as int);
                            }
                            assert(block_voxel_before(size, inv, cs, ii, v));
                        }
                        assert(block_voxel_before(size, inv, cs, ii, v) ==> block_voxel_before(
                            size,
                            inv,
                            cs,
                            ii + 1,
                            v,
                        ));
                    }
                }
            }
        } else {
            proof {
                assert forall|v: int| 0 <= v < old_map.len() implies #[trigger] mesh_vertex_map@[v]
                    == if block_voxel_before(size, inv, cs, ii + 1, v) {
                    value
                } else {
                    old_map[v]
                } by {
                    if block_voxel_before(size, inv, cs, ii + 1, v) {
                        let (a, b, c) = choose|a: int, b: int, c: int|
                            0 <= a < cs.x && 0 <= b < cs.y && 0 <= c < cs.z && block_local_index(
                                cs,
                                a,
                                b,
                                c,
                            ) < ii + 1 && inv.x + a < size.x && inv.y + b < size.y && inv.z + c
                                < size.z && v == #[trigger] voxel_linear_index(
                                size,
                                inv.x + a,
                                inv.y + b,
                                inv.z + c,
                            );
                        if block_local_index(cs, a, b, c) == ii {
                            lemma_linear_index_injective(rev, c, b, a, z as int, y as int, x as int);
                        }
                        assert(block_voxel_before(size, inv, cs, ii, v));
                    }
                    assert(block_voxel_before(size, inv, cs, ii, v) ==> block_voxel_before(
                        size,
                        inv,
                        cs,
                        ii + 1,
                        v,
                    ));
                }
            }
        }
        i = i + 1;
    }
}

} // verus!

//! The octree address of every cell of a cubic grid, found by halving the grid
//! level by level, and the table of such grids for every depth of a chunk.
use vstd::prelude::*;
use vstd::arithmetic::power2::{pow2, lemma_pow2_unfold, lemma2_to64, lemma_pow2_pos};
use vstd::arithmetic::div_mod::{lemma_fundamental_div_mod_converse, lemma_div_denominator};
use vstd::bits::lemma_u32_shl_is_mul;
use ndshape::{RuntimeShape, Shape};
use crate::address::{
    NodeAddress, OctreeDepthType, pow8, path_coord, lemma_pow8_mono, lemma_pow8_16,
    lemma_path_coord_append,
};
use crate::tables::vertex_bit;
use crate::tables::VertexIndex;

verus! {

/// `ceil(log2(s))`, 0 for `s <= 1`.
pub open spec fn ceil_log2(s: nat) -> nat
    decreases s,
{
    if s <= 1 {
        0
    } else {
        1 + ceil_log2(((s + 1) / 2) as nat)
    }
}

/// `floor(log2(s))`, 0 for `s <= 1`.
pub open spec fn floor_log2(s: nat) -> nat
    decreases s,
{
    if s <= 1 {
        0
    } else {
        1 + floor_log2(s / 2)
    }
}

/// The split point on one axis at level `i` of the descent towards cell
/// coordinate `v` in a grid of `s` cells: it starts at `s / 2` and then moves
/// by `s / 2^(i+1)` towards `v`.
pub open spec fn axis_half(s: nat, v: nat, i: nat) -> int
    decreases i,
{
    if i == 0 {
        (s / 2) as int
    } else {
        let h = axis_half(s, v, (i - 1) as nat);
        let off = (s / pow2(i + 1)) as int;
        if v < h {
            h - off
        } else {
            h + off
        }
    }
}

/// The side (0 below the split point, 1 from it on) of `v` at level `i`.
pub open spec fn axis_side(s: nat, v: nat, i: nat) -> nat {
    if v < axis_half(s, v, i) {
        0
    } else {
        1
    }
}

/// The subnode chosen at level `i` for cell `(x, y, z)`.
pub open spec fn leaf_digit(s: nat, x: nat, y: nat, z: nat, i: nat) -> nat {
    axis_side(s, x, i) + 2 * axis_side(s, y, i) + 4 * axis_side(s, z, i)
}

/// The path of the first `k` levels of the descent to cell `(x, y, z)`.
pub open spec fn leaf_path(s: nat, x: nat, y: nat, z: nat, k: nat) -> nat
    decreases k,
{
    if k == 0 {
        0
    } else {
        leaf_path(s, x, y, z, (k - 1) as nat) * 8 + leaf_digit(s, x, y, z, (k - 1) as nat)
    }
}

/// Position of cell `(x, y, z)` of a grid of `s` cells per side in the flat
/// array: x fastest, z slowest.
pub open spec fn cell_index(s: nat, x: nat, y: nat, z: nat) -> nat {
    x + s * y + s * s * z
}

/// The entry of cell `(x, y, z)` holds the address that the descent finds.
pub open spec fn cell_filled(v: Seq<NodeAddress>, s: nat, x: nat, y: nat, z: nat) -> bool {
    &&& v[cell_index(s, x, y, z) as int].raw_spec() == leaf_path(s, x, y, z, ceil_log2(s))
    &&& v[cell_index(s, x, y, z) as int].depth_spec() == ceil_log2(s)
}

/// `v` holds, for each of the `s^3` cells of the grid, its address.
pub open spec fn is_coord_address_vec(s: nat, v: Seq<NodeAddress>) -> bool {
    &&& v.len() == s * s * s
    &&& forall|x: nat, y: nat, z: nat|
        x < s && y < s && z < s ==> #[trigger] cell_filled(v, s, x, y, z)
}

/// Calls `ndshape::RuntimeShape::<u32, 3>::new(shape).usize()`: the number of
/// cells of the box, computed by `new` as the `u32` product
/// `(shape[0] * shape[1]) * shape[2]` (which panics on overflow).
#[verifier::external_body]
fn shape_usize(shape: [u32; 3]) -> (r: usize)
    requires
        shape[0] * shape[1] <= u32::MAX,
        shape[0] * shape[1] * shape[2] <= u32::MAX,
    ensures
        r == shape[0] * shape[1] * shape[2],
{
    RuntimeShape::<u32, 3>::new(shape).usize()
}

/// Calls `ndshape::RuntimeShape::<u32, 3>::new(shape).linearize(p)`: the
/// position `p[0] + shape[0] * p[1] + shape[0] * shape[1] * p[2]` of a point
/// of the box in the flat array.
#[verifier::external_body]
pub(crate) fn shape_linearize(shape: [u32; 3], p: [u32; 3]) -> (r: u32)
    requires
        shape[0] * shape[1] <= u32::MAX,
        shape[0] * shape[1] * shape[2] <= u32::MAX,
        p[0] < shape[0],
        p[1] < shape[1],
        p[2] < shape[2],
    ensures
        r == p[0] + shape[0] * p[1] + shape[0] * shape[1] * p[2],
{
    RuntimeShape::<u32, 3>::new(shape).linearize(p)
}

/// A cube of at most `u32::MAX` cells has sides of at most 1625.
pub(crate) proof fn lemma_cube_side_bound(s: nat)
    requires
        s * s * s <= u32::MAX,
    ensures
        s <= 1625,
        s * s <= u32::MAX,
{
    if s > 1625 {
        assert(s * s * s > u32::MAX) by (nonlinear_arith)
            requires
                s > 1625,
        ;
    }
    assert(s * s <= u32::MAX) by (nonlinear_arith)
        requires
            s <= 1625,
    ;
}

/// Cell positions are distinct and inside the array.
pub(crate) proof fn lemma_cell_index(s: nat, x: nat, y: nat, z: nat)
    requires
        x < s,
        y < s,
        z < s,
    ensures
        cell_index(s, x, y, z) < s * s * s,
        cell_index(s, x, y, z) % s == x,
        (cell_index(s, x, y, z) / s) % s == y,
        (cell_index(s, x, y, z) / s) / s == z,
{
    let i = cell_index(s, x, y, z);
    assert(i == (y + s * z) * s + x) by (nonlinear_arith)
        requires
            i == x + s * y + s * s * z,
    ;
    lemma_fundamental_div_mod_converse(i as int, s as int, (y + s * z) as int, x as int);
    lemma_fundamental_div_mod_converse((y + s * z) as int, s as int, z as int, y as int);
    assert(i < s * s * s) by (nonlinear_arith)
        requires
            i == x + s * y + s * s * z,
            x < s,
            y < s,
            z < s,
    ;
}

proof fn lemma_cell_index_injective(s: nat, x: nat, y: nat, z: nat, a: nat, b: nat, c: nat)
    requires
        x < s,
        y < s,
        z < s,
        a < s,
        b < s,
        c < s,
        cell_index(s, x, y, z) == cell_index(s, a, b, c),
    ensures
        x == a && y == b && z == c,
{
    lemma_cell_index(s, x, y, z);
    lemma_cell_index(s, a, b, c);
}

/// `ceil_log2(t) <= k` for `t <= 2^k`.
pub(crate) proof fn lemma_ceil_log2_small(t: nat, k: nat)
    requires
        t <= pow2(k),
    ensures
        ceil_log2(t) <= k,
    decreases k,
{
    lemma2_to64();
    if k == 0 {
    } else if t > 1 {
        lemma_pow2_unfold(k);
        lemma_ceil_log2_small(((t + 1) / 2) as nat, (k - 1) as nat);
    }
}

/// `ceil(log2(s))` is the least `d` with `2^d >= s`.
pub proof fn lemma_ceil_log2_is_least(s: nat)
    ensures
        pow2(ceil_log2(s)) >= s,
        ceil_log2(s) > 0 ==> pow2((ceil_log2(s) - 1) as nat) < s,
    decreases s,
{
    lemma2_to64();
    if s > 1 {
        let t = ((s + 1) / 2) as nat;
        lemma_ceil_log2_is_least(t);
        lemma_pow2_unfold(ceil_log2(s));
        if ceil_log2(t) > 0 {
            lemma_pow2_unfold(ceil_log2(t));
        }
    }
}

/// The split points stay inside the grid:
/// `s / 2^(i+1) <= axis_half(s, v, i) <= s - s / 2^(i+1)`.
proof fn lemma_axis_half_bounds(s: nat, v: nat, i: nat)
    ensures
        s / pow2(i + 1) <= axis_half(s, v, i) <= s - s / pow2(i + 1),
    decreases i,
{
    lemma2_to64();
    lemma_pow2_pos(i + 1);
    if i > 0 {
        lemma_axis_half_bounds(s, v, (i - 1) as nat);
        lemma_pow2_unfold(i + 1);
        lemma_pow2_pos(i);
        lemma_div_denominator(s as int, pow2(i) as int, 2);
        let m = s / pow2(i);
        assert(m - m / 2 >= m / 2);
    }
}

/// `ceil(log2(s))` for a grid side, by halving (rounded up) until 1 is left.
pub(crate) fn octree_depth_of_size(s: u32) -> (r: u32)
    ensures
        r == ceil_log2(s as nat),
        r <= 32,
{
    proof {
        lemma2_to64();
        lemma_ceil_log2_small(s as nat, 32);
    }
    let mut t = s;
    let mut depth: u32 = 0;
    while t > 1
        invariant
            depth + ceil_log2(t as nat) == ceil_log2(s as nat),
            ceil_log2(s as nat) <= 32,
        decreases t,
    {
        let ghost prev = t;
        t = t / 2 + t % 2;
        assert(t == (prev + 1) / 2);
        depth = depth + 1;
    }
    depth
}

/// The address of cell `(x, y, z)`: `depth` times, pick the subnode on the
/// cell's side of the split points and move each split point towards the cell.
fn leaf_address(s: u32, depth: u32, x: u32, y: u32, z: u32) -> (r: NodeAddress)
    requires
        s <= 1625,
        depth <= 11,
        x < s,
        y < s,
        z < s,
    ensures
        r.raw_spec() == leaf_path(s as nat, x as nat, y as nat, z as nat, depth as nat),
        r.depth_spec() == depth,
{
    let mut leaf = NodeAddress::root();
    let mut half_x: u32 = s / 2;
    let mut half_y: u32 = s / 2;
    let mut half_z: u32 = s / 2;
    let mut i: u32 = 0;
    proof {
        lemma2_to64();
    }
    while i < depth
        invariant
            s <= 1625,
            depth <= 11,
            i <= depth,
            leaf.raw_spec() == leaf_path(s as nat, x as nat, y as nat, z as nat, i as nat),
            leaf.raw_spec() < pow8(i as nat),
            leaf.depth_spec() == i,
            half_x == axis_half(s as nat, x as nat, i as nat),
            half_y == axis_half(s as nat, y as nat, i as nat),
            half_z == axis_half(s as nat, z as nat, i as nat),
        decreases depth - i,
    {
        proof {
            lemma_pow8_mono(i as nat, 10);
            lemma_pow8_16();
            lemma_pow8_mono(10, 15);
            assert(pow8(16) == 8 * pow8(15));
        }
        let sub_node_index = match (x < half_x, y < half_y, z < half_z) {
            (true, true, true) => VertexIndex::X0Y0Z0,
            (true, true, false) => VertexIndex::X0Y0Z1,
            (true, false, true) => VertexIndex::X0Y1Z0,
            (true, false, false) => VertexIndex::X0Y1Z1,
            (false, true, true) => VertexIndex::X1Y0Z0,
            (false, true, false) => VertexIndex::X1Y0Z1,
            (false, false, true) => VertexIndex::X1Y1Z0,
            (false, false, false) => VertexIndex::X1Y1Z1,
        };
        assert(sub_node_index.repr() == leaf_digit(s as nat, x as nat, y as nat, z as nat, i as nat));
        leaf.set_child(sub_node_index);
        proof {
            lemma_axis_half_bounds(s as nat, x as nat, i as nat);
            lemma_axis_half_bounds(s as nat, y as nat, i as nat);
            lemma_axis_half_bounds(s as nat, z as nat, i as nat);
            lemma_axis_half_bounds(s as nat, x as nat, (i + 1) as nat);
            lemma_axis_half_bounds(s as nat, y as nat, (i + 1) as nat);
            lemma_axis_half_bounds(s as nat, z as nat, (i + 1) as nat);
            lemma_pow2_pos((i + 2) as nat);
            vstd::bits::lemma_u32_pow2_no_overflow((i + 2) as nat);
            assert(1 * pow2((i + 2) as nat) == pow2((i + 2) as nat));
            lemma_u32_shl_is_mul(1, (i + 2) as u32);
        }
        let offset = s / (1u32 << (i + 2));
        half_x = if x < half_x { half_x - offset } else { half_x + offset };
        half_y = if y < half_y { half_y - offset } else { half_y + offset };
        half_z = if z < half_z { half_z - offset } else { half_z + offset };
        i = i + 1;
    }
    leaf
}

/// The address of every cell of a cubic grid, stored at the cell's position in
/// the flat array of the grid (`ndshape` order: x fastest). The depth of the
/// addresses is `ceil(log2(side))`.
pub fn construct_octree_coord_address_vec(shape: [u32; 3]) -> (r: Vec<NodeAddress>)
    requires
        shape[0] == shape[1],
        shape[0] == shape[2],
        shape[0] * shape[0] * shape[0] <= u32::MAX,
    ensures
        is_coord_address_vec(shape[0] as nat, r@),
{
    let s = shape[0];
    proof {
        lemma_cube_side_bound(s as nat);
        lemma2_to64();
        lemma_ceil_log2_small(s as nat, 11);
    }
    let n = shape_usize(shape);
    let mut coord_address_vec: Vec<NodeAddress> = vec![NodeAddress::root(); n];
    let depth = octree_depth_of_size(s);
    let ghost sn = s as nat;
    let ghost d = ceil_log2(sn);
    let mut x: u32 = 0;
    while x < s
        invariant
            s == shape[0] && s == shape[1] && s == shape[2],
            sn == s,
            s <= 1625,
            s * s <= u32::MAX,
            s * s * s <= u32::MAX,
            depth == d,
            d == ceil_log2(sn),
            depth <= 11,
            x <= s,
            coord_address_vec@.len() == sn * sn * sn,
            forall|a: nat, b: nat, c: nat|
                a < x && b < s && c < s ==> #[trigger] cell_filled(coord_address_vec@, sn, a, b, c),
        decreases s - x,
    {
        let mut y: u32 = 0;
        while y < s
            invariant
                s == shape[0] && s == shape[1] && s == shape[2],
                sn == s,
                s <= 1625,
                s * s <= u32::MAX,
                s * s * s <= u32::MAX,
                depth == d,
                d == ceil_log2(sn),
                depth <= 11,
                x < s,
                y <= s,
                coord_address_vec@.len() == sn * sn * sn,
                forall|a: nat, b: nat, c: nat|
                    (a < x || (a == x && b < y)) && b < s && c < s ==> #[trigger] cell_filled(
                        coord_address_vec@,
                        sn,
                        a,
                        b,
                        c,
                    ),
            decreases s - y,
        {
            let mut z: u32 = 0;
            while z < s
                invariant
                    s == shape[0] && s == shape[1] && s == shape[2],
                    sn == s,
                    s <= 1625,
                    s * s <= u32::MAX,
                    s * s * s <= u32::MAX,
                    depth == d,
                    d == ceil_log2(sn),
                    depth <= 11,
                    x < s,
                    y < s,
                    z <= s,
                    coord_address_vec@.len() == sn * sn * sn,
                    forall|a: nat, b: nat, c: nat|
                        (a < x || (a == x && b < y) || (a == x && b == y && c < z)) && b < s && c
                            < s ==> #[trigger] cell_filled(coord_address_vec@, sn, a, b, c),
                decreases s - z,
            {
                let index = shape_linearize(shape, [x, y, z]);
                let leaf_address = leaf_address(s, depth, x, y, z);
                proof {
                    lemma_cell_index(sn, x as nat, y as nat, z as nat);
                    assert(index == cell_index(sn, x as nat, y as nat, z as nat));
                }
                let ghost before = coord_address_vec@;
                coord_address_vec.set(index as usize, leaf_address);
                proof {
                    assert forall|a: nat, b: nat, c: nat|
                        (a < x || (a == x && b < y) || (a == x && b == y && c < z + 1)) && b < s
                            && c < s implies #[trigger] cell_filled(coord_address_vec@, sn, a, b, c) by {
                        if a == x && b == y && c == z {
                        } else {
                            assert(cell_filled(before, sn, a, b, c));
                            lemma_cell_index(sn, a, b, c);
                            if cell_index(sn, a, b, c) == cell_index(sn, x as nat, y as nat, z as nat) {
                                lemma_cell_index_injective(sn, a, b, c, x as nat, y as nat, z as nat);
                            }
                        }
                    }
                }
                z = z + 1;
            }
            y = y + 1;
        }
        x = x + 1;
    }
    coord_address_vec
}

/// Entry `k` of the depth table of a chunk of `size` cells per side whose
/// finest depth is `depth`: depth `depth - k`, with the grid of `size / 2^k`
/// cells per side.
pub open spec fn depth_entry_ok(
    size: nat,
    depth: int,
    k: int,
    entry: (OctreeDepthType, Vec<NodeAddress>),
) -> bool {
    &&& entry.0 == depth - k
    &&& is_coord_address_vec(size / pow2(k as nat), entry.1@)
}

/// `2^floor(log2(s))` is at most `s`, for `s >= 1`.
pub proof fn lemma_floor_log2_is_greatest(s: nat)
    requires
        s >= 1,
    ensures
        pow2(floor_log2(s)) <= s,
        s < pow2(floor_log2(s) + 1),
    decreases s,
{
    lemma2_to64();
    if s > 1 {
        lemma_floor_log2_is_greatest(s / 2);
        lemma_pow2_unfold(floor_log2(s));
        lemma_pow2_unfold(floor_log2(s) + 1);
    }
}

proof fn lemma_floor_log2_small(s: nat)
    requires
        s <= 1625,
    ensures
        floor_log2(s) <= 10,
{
    lemma2_to64();
    if s >= 1 {
        lemma_floor_log2_is_greatest(s);
        if floor_log2(s) > 11 {
            vstd::arithmetic::power2::lemma_pow2_strictly_increases(11, floor_log2(s));
        }
    }
}

/// `floor(log2(s))`, 0 for `s <= 1`, by halving until 1 is left.
fn floor_log2_u32(s: u32) -> (r: u16)
    requires
        s <= 1625,
    ensures
        r == floor_log2(s as nat),
{
    proof {
        lemma_floor_log2_small(s as nat);
    }
    let mut t = s;
    let mut depth: u16 = 0;
    while t > 1
        invariant
            depth + floor_log2(t as nat) == floor_log2(s as nat),
            floor_log2(s as nat) <= 10,
        decreases t,
    {
        t = t / 2;
        depth = depth + 1;
    }
    depth
}

/// For a chunk of `size` cells per side: for each depth from
/// `floor(log2(size))` down to 0, the grid of `size / 2^k` cells per side (`k`
/// steps up from the finest) with the address of each of its cells.
pub fn construct_octree_depth_coord_map(size: u32) -> (r: Vec<(OctreeDepthType, Vec<NodeAddress>)>)
    requires
        size * size * size <= u32::MAX,
    ensures
        size == 0 ==> r.len() == 0,
        size > 0 ==> r.len() == floor_log2(size as nat) + 1,
        forall|k: int|
            0 <= k < r.len() ==> #[trigger] depth_entry_ok(size as nat, floor_log2(size as nat) as int, k, r[k]),
{
    proof {
        lemma_cube_side_bound(size as nat);
        lemma2_to64();
    }
    let depth = floor_log2_u32(size);
    let mut depth_coord_map: Vec<(OctreeDepthType, Vec<NodeAddress>)> = Vec::new();
    let mut current_size = size;
    let mut t: u16 = 0;
    proof {
        lemma_floor_log2_small(size as nat);
        if size >= 1 {
            lemma_floor_log2_is_greatest(size as nat);
        }
    }
    while t <= depth
        invariant_except_break
            depth == floor_log2(size as nat),
            depth <= 10,
            t <= depth + 1,
            current_size == size as nat / pow2(t as nat),
            current_size <= size,
            size <= 1625,
            size * size * size <= u32::MAX,
            size >= 1 ==> pow2(depth as nat) <= size,
            depth_coord_map.len() == t,
            size == 0 ==> t == 0,
            forall|k: int|
                0 <= k < depth_coord_map.len() ==> #[trigger] depth_entry_ok(size as nat, depth as int, k, depth_coord_map[k]),
        ensures
            size == 0 ==> depth_coord_map.len() == 0,
            size > 0 ==> depth_coord_map.len() == depth + 1,
            forall|k: int|
                0 <= k < depth_coord_map.len() ==> #[trigger] depth_entry_ok(size as nat, depth as int, k, depth_coord_map[k]),
        decreases depth + 1 - t,
    {
        let i = depth - t;
        if current_size == 0 {
            proof {
                if size >= 1 {
                    lemma_pow2_pos(t as nat);
                    if t < depth {
                        vstd::arithmetic::power2::lemma_pow2_strictly_increases(t as nat, depth as nat);
                    }
                    assert(size as nat / pow2(t as nat) >= 1) by (nonlinear_arith)
                        requires
                            pow2(t as nat) <= size,
                            pow2(t as nat) > 0,
                    ;
                }
            }
            break;
        }
        proof {
            assert(current_size * current_size * current_size <= size * size * size) by (nonlinear_arith)
                requires
                    current_size <= size,
            ;
        }
        let shape: [u32; 3] = [current_size, current_size, current_size];
        assert(shape[0] == current_size && shape[1] == current_size && shape[2] == current_size);
        let vec = construct_octree_coord_address_vec(shape);
        assert(is_coord_address_vec(current_size as nat, vec@));
        let ghost before = depth_coord_map@;
        depth_coord_map.push((i, vec));
        proof {
            assert forall|k: int|
                0 <= k < depth_coord_map.len() implies #[trigger] depth_entry_ok(size as nat, depth as int, k, depth_coord_map[k]) by {
                if k < t {
                    assert(depth_coord_map[k] == before[k]);
                    assert(depth_entry_ok(size as nat, depth as int, k, before[k]));
                } else {
                    assert(depth_coord_map[k] == (i, vec));
                }
            }
            lemma_pow2_pos(t as nat);
            lemma_pow2_unfold((t + 1) as nat);
            lemma_div_denominator(size as int, pow2(t as nat) as int, 2);
        }
        assert(current_size >> 1u32 == current_size / 2) by (bit_vector);
        current_size = current_size >> 1u32;
        t = t + 1;
    }
    depth_coord_map
}

/// `ceil(log2(2^d)) == d`.
pub proof fn lemma_ceil_log2_pow2(d: nat)
    ensures
        ceil_log2(pow2(d)) == d,
    decreases d,
{
    lemma2_to64();
    if d > 0 {
        lemma_pow2_unfold(d);
        lemma_pow2_pos((d - 1) as nat);
        lemma_ceil_log2_pow2((d - 1) as nat);
        assert((pow2(d) + 1) / 2 == pow2((d - 1) as nat));
    }
}

/// In a grid of `2^d` cells per side the split point at level `i` is the
/// middle of the level-`i` node that holds `v`:
/// `(v / 2^(d-i)) * 2^(d-i) + 2^(d-i-1)`.
proof fn lemma_axis_half_pow2(d: nat, v: nat, i: nat)
    requires
        v < pow2(d),
        i < d,
    ensures
        axis_half(pow2(d), v, i) == (v / pow2((d - i) as nat)) * pow2((d - i) as nat) + pow2(
            (d - i - 1) as nat,
        ),
    decreases i,
{
    lemma2_to64();
    let s = pow2(d);
    if i == 0 {
        lemma_pow2_unfold(d);
        assert(v / pow2(d) == 0) by {
            lemma_fundamental_div_mod_converse(v as int, pow2(d) as int, 0, v as int);
        }
    } else {
        let j = (i - 1) as nat;
        lemma_axis_half_pow2(d, v, j);
        let big = pow2((d - j) as nat);
        let half = pow2((d - i) as nat);
        let quarter = pow2((d - i - 1) as nat);
        lemma_pow2_unfold((d - j) as nat);
        lemma_pow2_unfold((d - i) as nat);
        assert(big == 2 * half);
        assert(half == 2 * quarter);
        lemma_pow2_pos((d - i - 1) as nat);
        // the offset added at level j is s / 2^(j+2) = 2^(d-j-2)
        assert(s / pow2(i + 1) == quarter) by {
            vstd::arithmetic::power2::lemma_pow2_adds(i + 1, (d - i - 1) as nat);
            assert(s == pow2(i + 1) * quarter);
            assert(s == quarter * pow2(i + 1) + 0) by (nonlinear_arith)
                requires
                    s == pow2(i + 1) * quarter,
            ;
            lemma_pow2_pos(i + 1);
            lemma_fundamental_div_mod_converse(s as int, pow2(i + 1) as int, quarter as int, 0);
        }
        let q = v / big;
        let rem = v % big;
        lemma_pow2_pos((d - j) as nat);
        vstd::arithmetic::div_mod::lemma_fundamental_div_mod(v as int, big as int);
        assert(v == q * big + rem);
        assert(rem < big);
        assert(q * big == (2 * q) * half) by (nonlinear_arith)
            requires
                big == 2 * half,
        ;
        assert((2 * q + 1) * half == (2 * q) * half + half) by (nonlinear_arith);
        if rem < half {
            assert(v == (2 * q) * half + rem);
            lemma_fundamental_div_mod_converse(v as int, half as int, (2 * q) as int, rem as int);
        } else {
            assert(v == (2 * q + 1) * half + (rem - half));
            lemma_fundamental_div_mod_converse(
                v as int,
                half as int,
                (2 * q + 1) as int,
                (rem - half) as int,
            );
        }
    }
}

/// In a grid of `2^d` cells per side the side chosen at level `i` is bit
/// `d - 1 - i` of the coordinate.
proof fn lemma_axis_side_pow2(d: nat, v: nat, i: nat)
    requires
        v < pow2(d),
        i < d,
    ensures
        axis_side(pow2(d), v, i) == (v / pow2((d - i - 1) as nat)) % 2,
{
    lemma2_to64();
    lemma_axis_half_pow2(d, v, i);
    let big = pow2((d - i) as nat);
    let half = pow2((d - i - 1) as nat);
    lemma_pow2_unfold((d - i) as nat);
    lemma_pow2_pos((d - i - 1) as nat);
    let q = v / big;
    let rem = v % big;
    lemma_pow2_pos((d - i) as nat);
    vstd::arithmetic::div_mod::lemma_fundamental_div_mod(v as int, big as int);
    assert(big * q == q * big) by (nonlinear_arith);
    assert(v == q * big + rem);
    assert(rem < big);
    assert(q * big == (2 * q) * half) by (nonlinear_arith)
        requires
            big == 2 * half,
    ;
    assert((2 * q + 1) * half == (2 * q) * half + half) by (nonlinear_arith);
    if rem < half {
        assert(v == (2 * q) * half + rem);
        lemma_fundamental_div_mod_converse(v as int, half as int, (2 * q) as int, rem as int);
    } else {
        assert(v == (2 * q + 1) * half + (rem - half));
        lemma_fundamental_div_mod_converse(v as int, half as int, (2 * q + 1) as int, (rem - half) as int);
    }
}

/// The bits of a leaf digit are the three sides.
proof fn lemma_leaf_digit_bits(s: nat, x: nat, y: nat, z: nat, i: nat)
    ensures
        leaf_digit(s, x, y, z, i) < 8,
        vertex_bit(leaf_digit(s, x, y, z, i), 0) == axis_side(s, x, i),
        vertex_bit(leaf_digit(s, x, y, z, i), 1) == axis_side(s, y, i),
        vertex_bit(leaf_digit(s, x, y, z, i), 2) == axis_side(s, z, i),
{
}

/// After `k` levels of the descent in a grid of `2^d` cells per side, the path
/// names the level-`k` node that holds the cell: its coordinates are the cell's
/// coordinates divided by `2^(d-k)`.
proof fn lemma_leaf_path_prefix_coords(d: nat, x: nat, y: nat, z: nat, k: nat)
    requires
        x < pow2(d),
        y < pow2(d),
        z < pow2(d),
        k <= d,
    ensures
        leaf_path(pow2(d), x, y, z, k) < pow8(k),
        path_coord(leaf_path(pow2(d), x, y, z, k), k, 0) == x / pow2((d - k) as nat),
        path_coord(leaf_path(pow2(d), x, y, z, k), k, 1) == y / pow2((d - k) as nat),
        path_coord(leaf_path(pow2(d), x, y, z, k), k, 2) == z / pow2((d - k) as nat),
    decreases k,
{
    lemma2_to64();
    let s = pow2(d);
    if k == 0 {
        lemma_pow2_pos(d);
        lemma_fundamental_div_mod_converse(x as int, pow2(d) as int, 0, x as int);
        lemma_fundamental_div_mod_converse(y as int, pow2(d) as int, 0, y as int);
        lemma_fundamental_div_mod_converse(z as int, pow2(d) as int, 0, z as int);
    } else {
        let j = (k - 1) as nat;
        lemma_leaf_path_prefix_coords(d, x, y, z, j);
        let prev = leaf_path(s, x, y, z, j);
        let digit = leaf_digit(s, x, y, z, j);
        lemma_leaf_digit_bits(s, x, y, z, j);
        lemma_axis_side_pow2(d, x, j);
        lemma_axis_side_pow2(d, y, j);
        lemma_axis_side_pow2(d, z, j);
        lemma_path_coord_append(prev, digit, k, 0);
        lemma_path_coord_append(prev, digit, k, 1);
        lemma_path_coord_append(prev, digit, k, 2);
        let p = pow2((d - k) as nat);
        lemma_pow2_unfold((d - j) as nat);
        lemma_pow2_pos((d - k) as nat);
        assert(pow2((d - j) as nat) == p * 2);
        lemma_div_denominator(x as int, p as int, 2);
        lemma_div_denominator(y as int, p as int, 2);
        lemma_div_denominator(z as int, p as int, 2);
        vstd::arithmetic::div_mod::lemma_fundamental_div_mod((x / p) as int, 2);
        vstd::arithmetic::div_mod::lemma_fundamental_div_mod((y / p) as int, 2);
        vstd::arithmetic::div_mod::lemma_fundamental_div_mod((z / p) as int, 2);
        assert(pow8(k) == 8 * pow8(j));
    }
}

/// In a grid of `2^d` cells per side the descent finds, for each cell, the
/// address of the depth-`d` node at that cell's coordinates; so the addresses
/// of distinct cells are distinct.
pub proof fn lemma_grid_addresses_name_cells(d: nat, x: nat, y: nat, z: nat)
    requires
        x < pow2(d),
        y < pow2(d),
        z < pow2(d),
    ensures
        ceil_log2(pow2(d)) == d,
        leaf_path(pow2(d), x, y, z, d) < pow8(d),
        path_coord(leaf_path(pow2(d), x, y, z, d), d, 0) == x,
        path_coord(leaf_path(pow2(d), x, y, z, d), d, 1) == y,
        path_coord(leaf_path(pow2(d), x, y, z, d), d, 2) == z,
{
    lemma2_to64();
    lemma_ceil_log2_pow2(d);
    lemma_leaf_path_prefix_coords(d, x, y, z, d);
    assert(((d - d) as nat) == 0);
    assert(pow2(0) == 1);
    assert(x / 1 == x && y / 1 == y && z / 1 == z);
}

} // verus!

//! Packed addresses of octree nodes.
//!
//! A node address packs, in one `u64`, the path from the root to the node
//! (`raw_address`, 48 bits: three bits per level, the deepest level lowest) and
//! the node's depth (16 bits). With three bits per level a meaningful address
//! is at most 16 levels deep.
use vstd::prelude::*;
use vstd::arithmetic::power2::{pow2, lemma_pow2_adds, lemma2_to64};
use vstd::bits::{lemma_u64_shr_is_div, lemma_u64_shl_is_mul};
use vstd::arithmetic::div_mod::lemma_div_denominator;
use vstd::arithmetic::mul::lemma_mul_is_associative;
use crate::tables::{
    FaceIndex, EdgeIndex, VertexIndex, SubNodeIndex, vertex_of, vertex_bit, face_subnode,
    edge_low_vertex, axis_weight, neighbour_in_table, neighbour_address_table, subnode_in_face,
    edge_vertex_pairs, neighbor_node_in_edge, neighbor_node_in_vertex, FACE_SUBNODE_COUNT,
    EDGE_SUBNODE_COUNT, face_of, first_other_axis, second_other_axis,
};


verus! {

/// Depth of a node in an octree.
pub type OctreeDepthType = u16;

/// Bits of the path field.
pub const RAW_ADDRESS_BITS: u64 = 48;

/// One more than the largest path that the path field holds (`2^48`).
pub const RAW_ADDRESS_LIMIT: u64 = 0x1_0000_0000_0000;

const RAW_ADDRESS_MASK: u64 = 0xFFFF_FFFF_FFFF;

/// `8^k`: the number of nodes `k` levels below a node.
pub open spec fn pow8(k: nat) -> nat
    decreases k,
{
    if k == 0 {
        1
    } else {
        8 * pow8((k - 1) as nat)
    }
}

pub proof fn lemma_pow8_is_pow2(k: nat)
    ensures
        pow8(k) == pow2(3 * k),
        pow8(k) > 0,
    decreases k,
{
    if k == 0 {
        lemma2_to64();
    } else {
        lemma_pow8_is_pow2((k - 1) as nat);
        lemma_pow2_adds(3 * (k - 1) as nat, 3);
        lemma2_to64();
    }
}

/// Shifting a `u64` right by `3k` bits is division by `8^k`.
pub proof fn lemma_shr_is_div_pow8(x: u64, k: nat)
    requires
        3 * k < 64,
    ensures
        x >> (3 * k) as u64 == x as nat / pow8(k),
{
    lemma_pow8_is_pow2(k);
    lemma_u64_shr_is_div(x, (3 * k) as u64);
}

/// Shifting a `u64` left by `3k` bits is multiplication by `8^k` when the
/// product fits.
pub proof fn lemma_shl_is_mul_pow8(x: u64, k: nat)
    requires
        3 * k < 64,
        x * pow8(k) <= u64::MAX,
    ensures
        x << (3 * k) as u64 == x as nat * pow8(k),
{
    lemma_pow8_is_pow2(k);
    lemma_u64_shl_is_mul(x, (3 * k) as u64);
}

/// The coordinate on `axis` of the node that path `raw` names at `depth`
/// levels below the root, in units of that node's size.
pub open spec fn path_coord(raw: nat, depth: nat, axis: nat) -> nat
    decreases depth,
{
    if depth == 0 {
        0
    } else {
        2 * path_coord(raw / 8, (depth - 1) as nat, axis) + vertex_bit(raw % 8, axis)
    }
}

/// The address of an octree node.
#[derive(Debug, Clone, Copy, PartialEq, Eq, Hash, Structural)]
pub struct NodeAddress {
    bits: u64,
}

impl NodeAddress {
    /// The path from the root to the node: three bits per level, deepest lowest.
    pub closed spec fn raw_spec(self) -> nat {
        (self.bits % 0x1_0000_0000_0000) as nat
    }

    /// The depth of the node.
    pub closed spec fn depth_spec(self) -> nat {
        (self.bits / 0x1_0000_0000_0000) as nat
    }

    /// Whether the path names a node at that depth: a node at depth `d` has one
    /// of `8^d` paths.
    pub open spec fn well_formed(self) -> bool {
        self.raw_spec() < pow8(self.depth_spec())
    }

    /// The coordinate of the node on `axis`, in units of its own size.
    pub open spec fn coord(self, axis: nat) -> nat {
        path_coord(self.raw_spec(), self.depth_spec(), axis)
    }

    pub proof fn lemma_view_bounds(self)
        ensures
            self.raw_spec() < 0x1_0000_0000_0000,
            self.depth_spec() < 0x1_0000,
    {
    }

    /// Two addresses are equal exactly when their paths and depths are.
    pub proof fn lemma_view_eq(self, other: NodeAddress)
        ensures
            (self == other) <==> (self.raw_spec() == other.raw_spec() && self.depth_spec()
                == other.depth_spec()),
    {
        if self.raw_spec() == other.raw_spec() && self.depth_spec() == other.depth_spec() {
            assert(self.bits == self.depth_spec() * 0x1_0000_0000_0000 + self.raw_spec());
            assert(other.bits == other.depth_spec() * 0x1_0000_0000_0000 + other.raw_spec());
        }
    }

    /// The address with path 0 at depth 0.
    pub fn new() -> (r: NodeAddress)
        ensures
            r.raw_spec() == 0,
            r.depth_spec() == 0,
    {
        NodeAddress { bits: 0 }
    }

    /// The root of the octree.
    pub fn root() -> (r: NodeAddress)
        ensures
            r.raw_spec() == 0,
            r.depth_spec() == 0,
    {
        NodeAddress::new().with_raw_address(0).with_depth(0)
    }

    /// The path field.
    pub fn raw_address(&self) -> (r: u64)
        ensures
            r == self.raw_spec(),
    {
        let b = self.bits;
        assert(b & 0xFFFF_FFFF_FFFF == b % 0x1_0000_0000_0000) by (bit_vector);
        b & RAW_ADDRESS_MASK
    }

    /// The depth field.
    pub fn depth(&self) -> (r: u16)
        ensures
            r == self.depth_spec(),
    {
        let b = self.bits;
        assert(b >> 48u64 == b / 0x1_0000_0000_0000) by (bit_vector);
        (b >> 48u64) as u16
    }

    /// Replaces the path field.
    pub fn set_raw_address(&mut self, raw_address: u64)
        requires
            raw_address < RAW_ADDRESS_LIMIT,
        ensures
            final(self).raw_spec() == raw_address,
            final(self).depth_spec() == old(self).depth_spec(),
    {
        let b = self.bits;
        let n = (b & !RAW_ADDRESS_MASK) | raw_address;
        assert(n % 0x1_0000_0000_0000 == raw_address && n / 0x1_0000_0000_0000 == b
            / 0x1_0000_0000_0000) by (bit_vector)
            requires
                raw_address < 0x1_0000_0000_0000,
                n == (b & !0xFFFF_FFFF_FFFFu64) | raw_address,
        ;
        self.bits = n;
    }

    /// Replaces the depth field.
    pub fn set_depth(&mut self, depth: u16)
        ensures
            final(self).raw_spec() == old(self).raw_spec(),
            final(self).depth_spec() == depth,
    {
        let b = self.bits;
        let d = depth as u64;
        let n = (b & RAW_ADDRESS_MASK) | (d << 48u64);
        assert(n % 0x1_0000_0000_0000 == b % 0x1_0000_0000_0000 && n / 0x1_0000_0000_0000 == d)
            by (bit_vector)
            requires
                d < 0x1_0000,
                n == (b & 0xFFFF_FFFF_FFFFu64) | (d << 48u64),
        ;
        self.bits = n;
    }

    /// This address with another path.
    pub fn with_raw_address(self, raw_address: u64) -> (r: NodeAddress)
        requires
            raw_address < RAW_ADDRESS_LIMIT,
        ensures
            r.raw_spec() == raw_address,
            r.depth_spec() == self.depth_spec(),
    {
        let mut r = self;
        r.set_raw_address(raw_address);
        r
    }

    /// This address with another depth.
    pub fn with_depth(self, depth: u16) -> (r: NodeAddress)
        ensures
            r.raw_spec() == self.raw_spec(),
            r.depth_spec() == depth,
    {
        let mut r = self;
        r.set_depth(depth);
        r
    }
}


/// `(r << 3) | p` is `8r + p` for a path `r` of at most 45 bits and a digit `p`.
proof fn lemma_append_digit(r: u64, p: u64)
    requires
        r < 0x2000_0000_0000,
        p < 8,
    ensures
        (r << 3u64) | p == r * 8 + p,
        r * 8 + p < 0x1_0000_0000_0000,
{
    assert((r << 3u64) | p == r * 8 + p) by (bit_vector)
        requires
            r < 0x2000_0000_0000,
            p < 8,
    ;
}

impl NodeAddress {
    /// Makes this the address of subnode `pos_in_parent` of `parent_address`.
    pub fn set(&mut self, parent_address: NodeAddress, pos_in_parent: SubNodeIndex)
        requires
            parent_address.raw_spec() * 8 < RAW_ADDRESS_LIMIT,
            parent_address.depth_spec() < u16::MAX,
        ensures
            final(self).raw_spec() == parent_address.raw_spec() * 8 + pos_in_parent.repr(),
            final(self).depth_spec() == parent_address.depth_spec() + 1,
    {
        let r = parent_address.raw_address();
        let p = pos_in_parent.to_index() as u64;
        proof {
            lemma_append_digit(r, p);
        }
        self.set_raw_address(r << 3u64 | p);
        self.set_depth(parent_address.depth() + 1);
    }

    /// Moves this address one level down, to its subnode `pos_in_parent`.
    pub fn set_child(&mut self, pos_in_parent: SubNodeIndex)
        requires
            old(self).raw_spec() * 8 < RAW_ADDRESS_LIMIT,
            old(self).depth_spec() < u16::MAX,
        ensures
            final(self).raw_spec() == old(self).raw_spec() * 8 + pos_in_parent.repr(),
            final(self).depth_spec() == old(self).depth_spec() + 1,
    {
        let r = self.raw_address();
        let p = pos_in_parent.to_index() as u64;
        proof {
            lemma_append_digit(r, p);
        }
        self.set_raw_address(r << 3u64 | p);
        let d = self.depth();
        self.set_depth(d + 1);
    }

    /// Makes this the root address.
    pub fn reset(&mut self)
        ensures
            final(self).raw_spec() == 0,
            final(self).depth_spec() == 0,
    {
        self.set_raw_address(0);
        self.set_depth(0);
    }

    /// The address of the parent node.
    pub fn get_parent_address(&self) -> (r: NodeAddress)
        requires
            self.depth_spec() > 0,
        ensures
            r.raw_spec() == self.raw_spec() / 8,
            r.depth_spec() == self.depth_spec() - 1,
    {
        let mut parent_address = *self;
        let raw = parent_address.raw_address();
        assert(raw >> 3u64 == raw / 8) by (bit_vector);
        parent_address.set_raw_address(raw >> 3u64);
        let d = parent_address.depth();
        parent_address.set_depth(d - 1);
        parent_address
    }

    /// The subnode, within its parent, of this node's ancestor at `depth`
    /// (or of the node itself when `depth` is its own depth); `None` when
    /// `depth` is below the node.
    pub fn get_pos_by_depth(&self, depth: u16) -> (r: Option<SubNodeIndex>)
        requires
            self.depth_spec() < depth || (self.depth_spec() - depth) * 3 < 64,
        ensures
            self.depth_spec() < depth ==> r is None,
            self.depth_spec() >= depth ==> r == Some(
                vertex_of((self.raw_spec() / pow8((self.depth_spec() - depth) as nat)) % 8),
            ),
    {
        if self.depth() < depth {
            return None;
        }
        let shift = ((self.depth() - depth) * 3) as u64;
        let raw = self.raw_address();
        let mut pos_in_parent = raw & (0b111u64 << shift);
        pos_in_parent = pos_in_parent >> shift;
        assert(pos_in_parent == (raw >> shift) % 8 && pos_in_parent < 8) by (bit_vector)
            requires
                shift < 64,
                pos_in_parent == (raw & (7u64 << shift)) >> shift,
        ;
        proof {
            lemma_shr_is_div_pow8(raw, (self.depth_spec() - depth) as nat);
        }
        VertexIndex::from_repr(pos_in_parent as usize)
    }

    /// The subnode that this node is within its parent; `None` for a node at
    /// depth 0.
    pub fn get_pos_in_parent(&self) -> (r: Option<SubNodeIndex>)
        ensures
            self.depth_spec() == 0 ==> r is None,
            self.depth_spec() > 0 ==> r == Some(vertex_of(self.raw_spec() % 8)),
    {
        if self.depth() == 0 {
            return None;
        }
        let r = self.get_pos_by_depth(self.depth());
        assert(pow8(0) == 1);
        assert(((self.depth_spec() - self.depth_spec()) as nat) == 0);
        assert(self.raw_spec() / 1 == self.raw_spec());
        r
    }

    /// The depth of the node.
    pub fn get_depth(&self) -> (r: OctreeDepthType)
        ensures
            r == self.depth_spec(),
    {
        self.depth()
    }

    /// The address of subnode `sub_node_index` of this node.
    pub fn get_child_address(&self, sub_node_index: SubNodeIndex) -> (r: NodeAddress)
        requires
            self.raw_spec() * 8 < RAW_ADDRESS_LIMIT,
            self.depth_spec() < u16::MAX,
        ensures
            r.raw_spec() == self.raw_spec() * 8 + sub_node_index.repr(),
            r.depth_spec() == self.depth_spec() + 1,
    {
        let mut child_address = NodeAddress::new();
        let r = self.raw_address();
        let p = sub_node_index.to_index() as u64;
        proof {
            lemma_append_digit(r, p);
        }
        child_address.set_raw_address(r << 3u64 | p);
        child_address.set_depth(self.depth() + 1);
        child_address
    }

    /// The addresses of the eight subnodes, in subnode order.
    pub fn get_children_addresses(&self) -> (r: [NodeAddress; 8])
        requires
            self.raw_spec() * 8 < RAW_ADDRESS_LIMIT,
            self.depth_spec() < u16::MAX,
        ensures
            forall|i: int|
                0 <= i < 8 ==> #[trigger] r[i].raw_spec() == self.raw_spec() * 8 + i
                    && r[i].depth_spec() == self.depth_spec() + 1,
    {
        [
            self.get_child_address(VertexIndex::X0Y0Z0),
            self.get_child_address(VertexIndex::X1Y0Z0),
            self.get_child_address(VertexIndex::X0Y1Z0),
            self.get_child_address(VertexIndex::X1Y1Z0),
            self.get_child_address(VertexIndex::X0Y0Z1),
            self.get_child_address(VertexIndex::X1Y0Z1),
            self.get_child_address(VertexIndex::X0Y1Z1),
            self.get_child_address(VertexIndex::X1Y1Z1),
        ]
    }

    /// The addresses of the four subnodes that touch `face_index`, in the
    /// order of `subnode_in_face`.
    pub fn get_children_addresses_by_face(&self, face_index: FaceIndex) -> (r: [NodeAddress; FACE_SUBNODE_COUNT])
        requires
            self.raw_spec() * 8 < RAW_ADDRESS_LIMIT,
            self.depth_spec() < u16::MAX,
        ensures
            forall|k: int|
                0 <= k < 4 ==> #[trigger] r[k].raw_spec() == self.raw_spec() * 8 + face_subnode(
                    face_index,
                    k as nat,
                ) && r[k].depth_spec() == self.depth_spec() + 1,
    {
        let subnodes = subnode_in_face(face_index);
        [
            self.get_child_address(subnodes[0]),
            self.get_child_address(subnodes[1]),
            self.get_child_address(subnodes[2]),
            self.get_child_address(subnodes[3]),
        ]
    }

    /// The addresses of the two subnodes that touch `edge_index`, lower first.
    pub fn get_children_addresses_by_edge(&self, edge_index: EdgeIndex) -> (r: [NodeAddress; EDGE_SUBNODE_COUNT])
        requires
            self.raw_spec() * 8 < RAW_ADDRESS_LIMIT,
            self.depth_spec() < u16::MAX,
        ensures
            r[0].raw_spec() == self.raw_spec() * 8 + edge_low_vertex(edge_index),
            r[1].raw_spec() == self.raw_spec() * 8 + edge_low_vertex(edge_index) + axis_weight(
                edge_index.axis(),
            ),
            r[0].depth_spec() == self.depth_spec() + 1,
            r[1].depth_spec() == self.depth_spec() + 1,
    {
        let subnodes = edge_vertex_pairs(edge_index);
        [self.get_child_address(subnodes[0]), self.get_child_address(subnodes[1])]
    }

    /// The address of the subnode that touches `vertex_index`.
    pub fn get_children_addresses_by_vertex(&self, vertex_index: VertexIndex) -> (r: NodeAddress)
        requires
            self.raw_spec() * 8 < RAW_ADDRESS_LIMIT,
            self.depth_spec() < u16::MAX,
        ensures
            r.raw_spec() == self.raw_spec() * 8 + vertex_index.repr(),
            r.depth_spec() == self.depth_spec() + 1,
    {
        self.get_child_address(vertex_index)
    }
}


pub proof fn lemma_pow8_adds(a: nat, b: nat)
    ensures
        pow8(a + b) == pow8(a) * pow8(b),
    decreases a,
{
    if a == 0 {
        assert(pow8(0) == 1);
        assert(a + b == b);
    } else {
        lemma_pow8_adds((a - 1) as nat, b);
        assert(((a + b - 1) as nat) == ((a - 1) as nat + b));
        assert(pow8(a + b) == 8 * pow8((a + b - 1) as nat));
        assert(pow8(a) == 8 * pow8((a - 1) as nat));
        lemma_mul_is_associative(8, pow8((a - 1) as nat) as int, pow8(b) as int);
    }
}

pub proof fn lemma_pow8_positive(k: nat)
    ensures
        pow8(k) >= 1,
    decreases k,
{
    if k > 0 {
        lemma_pow8_positive((k - 1) as nat);
    }
}

pub proof fn lemma_pow8_mono(a: nat, b: nat)
    requires
        a <= b,
    ensures
        pow8(a) <= pow8(b),
    decreases b,
{
    if a < b {
        lemma_pow8_mono(a, (b - 1) as nat);
        lemma_pow8_positive((b - 1) as nat);
    }
}

pub proof fn lemma_pow8_16()
    ensures
        pow8(16) == 0x1_0000_0000_0000,
{
    lemma_pow8_is_pow2(16);
    lemma2_to64();
    lemma_pow2_adds(32, 16);
    lemma_pow2_adds(16, 16);
    lemma_pow2_adds(8, 8);
}

/// Placing `hi` above the lowest `3k` bits, where `lo` sits, is `lo + hi * 8^k`.
pub proof fn lemma_or_shift_is_add(lo: u64, hi: u64, k: nat)
    requires
        3 * k < 64,
        lo < pow8(k),
        hi * pow8(k) <= u64::MAX,
    ensures
        lo | (hi << (3 * k) as u64) == lo + hi * pow8(k),
{
    let s = (3 * k) as u64;
    lemma_pow8_positive(k);
    lemma_pow8_is_pow2(k);
    vstd::bits::lemma_u64_pow2_no_overflow(3 * k);
    lemma_shl_is_mul_pow8(hi, k);
    lemma_shl_is_mul_pow8(1, k);
    assert(lo | (hi << s) == lo + (hi << s)) by (bit_vector)
        requires
            s < 64,
            lo < (1u64 << s),
    ;
}

/// The path that `concat_address` makes of `a` above `b`, `b` being `d`
/// levels deep: `a` shifted up by `3d` bits (as a `u64`), or-ed with `b`.
pub open spec fn concat_raw(a: nat, b: nat, d: nat) -> nat {
    (((a as u64) << ((3 * d) as u64)) | (b as u64)) as nat
}

/// When the path `b` has `d` levels and the result fits, concatenating is
/// appending: `a * 8^d + b`.
pub proof fn lemma_concat_raw_is_append(a: nat, b: nat, d: nat)
    requires
        3 * d < 64,
        b < pow8(d),
        a * pow8(d) + b < 0x1_0000_0000_0000,
    ensures
        concat_raw(a, b, d) == a * pow8(d) + b,
{
    lemma_pow8_positive(d);
    assert(a <= a * pow8(d)) by (nonlinear_arith)
        requires
            pow8(d) >= 1,
    ;
    lemma_or_shift_is_add(b as u64, a as u64, d);
    let x = b as u64;
    let y = (a as u64) << ((3 * d) as u64);
    assert(x | y == y | x) by (bit_vector);
}

/// The path of the neighbour across `face` of the node with path `raw` at
/// `depth`, found as the address walk finds it: step to the neighbouring subnode
/// and, while that subnode lies in another parent, do the same for the parent.
/// `None` when the walk leaves the root: the node is on that face of the octree.
pub open spec fn face_neighbor_path(raw: nat, depth: nat, face: FaceIndex) -> Option<nat>
    decreases depth,
{
    if depth == 0 {
        None
    } else {
        let step = neighbour_in_table(face, raw % 8);
        if step.1 {
            Some((raw / 8) * 8 + step.0)
        } else {
            match face_neighbor_path(raw / 8, (depth - 1) as nat, face) {
                Some(q) => Some(q * 8 + step.0),
                None => None,
            }
        }
    }
}

/// The number of levels that the neighbour walk visits.
pub open spec fn face_walk_len(raw: nat, depth: nat, face: FaceIndex) -> nat
    decreases depth,
{
    if depth == 0 {
        0
    } else if neighbour_in_table(face, raw % 8).1 {
        1
    } else {
        1 + face_walk_len(raw / 8, (depth - 1) as nat, face)
    }
}

/// Path and depth of the address that `get_face_neighbor_address` returns: the
/// neighbour at the same depth, or, when there is none, the root that the walk
/// reached (depth 0, path `raw / 8^depth`).
pub open spec fn face_neighbor_result(raw: nat, depth: nat, face: FaceIndex) -> (nat, nat) {
    match face_neighbor_path(raw, depth, face) {
        Some(q) => (q, depth),
        None => (raw / pow8(depth), 0),
    }
}

spec fn lift_path(p: Option<nat>, j: nat, acc: nat) -> Option<nat> {
    match p {
        Some(q) => Some(q * pow8(j) + acc),
        None => None,
    }
}

/// The neighbour walk visits at most `depth` levels, and at least one below
/// the root; so every node at most 16 levels deep meets the bound of
/// `get_face_neighbor_address`.
pub proof fn lemma_walk_len_bound(raw: nat, depth: nat, face: FaceIndex)
    ensures
        face_walk_len(raw, depth, face) <= depth,
        depth > 0 ==> face_walk_len(raw, depth, face) >= 1,
    decreases depth,
{
    if depth > 0 {
        lemma_walk_len_bound(raw / 8, (depth - 1) as nat, face);
    }
}

impl NodeAddress {
    /// Concatenates two addresses: the path of `node_address` appended below
    /// this one, and the depths added.
    pub fn concat_address(&self, node_address: NodeAddress) -> (r: NodeAddress)
        requires
            node_address.depth_spec() * 3 < 64,
            concat_raw(self.raw_spec(), node_address.raw_spec(), node_address.depth_spec())
                < RAW_ADDRESS_LIMIT,
            self.depth_spec() + node_address.depth_spec() <= u16::MAX,
        ensures
            r.raw_spec() == concat_raw(
                self.raw_spec(),
                node_address.raw_spec(),
                node_address.depth_spec(),
            ),
            r.depth_spec() == self.depth_spec() + node_address.depth_spec(),
    {
        let mut address = *self;
        let depth_offset = node_address.depth();
        let shift = (depth_offset * 3) as u64;
        let raw = address.raw_address() << shift | node_address.raw_address();
        address.set_raw_address(raw);
        let d = address.depth();
        address.set_depth(d + depth_offset);
        address
    }

    /// The neighbour across `face_index` at the same depth; when the node lies
    /// on that face of the whole octree, the root that the search reached.
    pub fn get_face_neighbor_address(&self, face_index: FaceIndex) -> (r: NodeAddress)
        requires
            face_walk_len(self.raw_spec(), self.depth_spec(), face_index) <= 16,
        ensures
            r.raw_spec() == face_neighbor_result(self.raw_spec(), self.depth_spec(), face_index).0,
            r.depth_spec() == face_neighbor_result(self.raw_spec(), self.depth_spec(), face_index).1,
    {
        let ghost raw0 = self.raw_spec();
        let ghost depth0 = self.depth_spec();
        let ghost mut j: nat = 0;
        let mut address = *self;
        let mut neighbor_address = NodeAddress::new();
        let mut shift_count: u64 = 0;
        proof {
            assert(pow8(0) == 1);
            assert(raw0 / 1 == raw0);
            assert forall|p: Option<nat>| lift_path(p, 0, 0) == p by {
                if let Some(q) = p {
                    assert(q * pow8(0) == q);
                }
            }
            lemma_pow8_16();
        }
        loop
            invariant_except_break
                raw0 == self.raw_spec(),
                depth0 == self.depth_spec(),
                address.raw_spec() == raw0 / pow8(j),
                address.depth_spec() + j == depth0,
                neighbor_address.raw_spec() < pow8(j),
                neighbor_address.depth_spec() == j,
                shift_count == 3 * j,
                raw0 < 0x1_0000_0000_0000,
                pow8(16) == 0x1_0000_0000_0000,
                face_walk_len(raw0, depth0, face_index) == j + face_walk_len(
                    address.raw_spec(),
                    address.depth_spec(),
                    face_index,
                ),
                face_walk_len(raw0, depth0, face_index) <= 16,
                face_neighbor_path(raw0, depth0, face_index) == lift_path(
                    face_neighbor_path(address.raw_spec(), address.depth_spec(), face_index),
                    j,
                    neighbor_address.raw_spec(),
                ),
            ensures
                neighbor_address.raw_spec() == face_neighbor_result(raw0, depth0, face_index).0,
                neighbor_address.depth_spec() == face_neighbor_result(raw0, depth0, face_index).1,
            decreases address.depth_spec(),
        {
            let sub_node_index = match address.get_pos_in_parent() {
                Some(s) => s,
                None => {
                    proof {
                        assert(j == depth0);
                        assert(address.depth_spec() == 0);
                        assert(face_neighbor_path(address.raw_spec(), 0, face_index) is None);
                        assert(lift_path(None, j, neighbor_address.raw_spec()) is None);
                        assert(face_neighbor_path(raw0, depth0, face_index) is None);
                        assert(address.raw_spec() == raw0 / pow8(depth0));
                        assert(face_neighbor_result(raw0, depth0, face_index).0 == address.raw_spec());
                        assert(face_neighbor_result(raw0, depth0, face_index).1 == 0);
                    }
                    return address;
                },
            };
            proof {
                lemma_walk_len_bound(address.raw_spec(), address.depth_spec(), face_index);
                lemma_pow8_positive(j);
                lemma_pow8_mono(j, 15);
                lemma_pow8_16();
            }
            let (neighbor_sub_node_index, same_parent) = neighbour_address_table(face_index, sub_node_index);
            let n = neighbor_sub_node_index.to_index() as u64;
            let ghost a = address.raw_spec();
            let ghost acc = neighbor_address.raw_spec();
            proof {
                neighbor_sub_node_index.lemma_repr_bounds();
                assert(j <= 15);
                assert(n * pow8(j) <= 7 * pow8(15)) by (nonlinear_arith)
                    requires
                        n < 8,
                        pow8(j) <= pow8(15),
                ;
                assert(pow8(16) == 8 * pow8(15));
                lemma_or_shift_is_add(acc as u64, n, j);
                assert(acc + n * pow8(j) < pow8(j + 1)) by (nonlinear_arith)
                    requires
                        acc < pow8(j),
                        n < 8,
                        pow8(j + 1) == 8 * pow8(j),
                ;
                lemma_pow8_mono(j + 1, 16);
            }
            let acc_raw = neighbor_address.raw_address();
            neighbor_address.set_raw_address(acc_raw | n << shift_count);
            let nd = neighbor_address.depth();
            neighbor_address.set_depth(nd + 1);
            address = address.get_parent_address();
            shift_count = shift_count + 3;
            proof {
                lemma_div_denominator(raw0 as int, pow8(j) as int, 8);
                assert(pow8(j + 1) == pow8(j) * 8);
                let ghost acc2 = acc + n * pow8(j);
                let p = face_neighbor_path(a / 8, (address.depth_spec()) as nat, face_index);
                if !same_parent {
                    if let Some(q) = p {
                        assert((q * 8 + n) * pow8(j) + acc == q * pow8(j + 1) + acc2) by (nonlinear_arith)
                            requires
                                pow8(j + 1) == pow8(j) * 8,
                                acc2 == acc + n * pow8(j),
                        ;
                    }
                }
                j = j + 1;
            }
            if same_parent {
                let ghost acc2 = neighbor_address.raw_spec();
                let ghost h = address.raw_spec();
                proof {
                    lemma_pow8_adds(j, (16 - j) as nat);
                    assert(h < pow8((16 - j) as nat)) by (nonlinear_arith)
                        requires
                            h == raw0 / pow8(j),
                            raw0 < pow8(j) * pow8((16 - j) as nat),
                            pow8(j) >= 1,
                    ;
                    assert(h * pow8(j) + acc2 < 0x1_0000_0000_0000) by (nonlinear_arith)
                        requires
                            h < pow8((16 - j) as nat),
                            acc2 < pow8(j),
                            pow8(j) * pow8((16 - j) as nat) == 0x1_0000_0000_0000,
                    ;
                    lemma_or_shift_is_add(acc2 as u64, h as u64, j);
                    assert(h == a / 8);
                    assert(((a / 8) * 8 + n) * pow8((j - 1) as nat) + acc == h * pow8(j) + acc2)
                        by (nonlinear_arith)
                        requires
                            pow8(j) == pow8((j - 1) as nat) * 8,
                            acc2 == acc + n * pow8((j - 1) as nat),
                            h == a / 8,
                    ;
                }
                let acc_raw = neighbor_address.raw_address();
                neighbor_address.set_raw_address(acc_raw | address.raw_address() << shift_count);
                let nd = neighbor_address.depth();
                neighbor_address.set_depth(nd + address.depth());
                break;
            }
        }
        neighbor_address
    }
}


/// The first face that the edge neighbour walk crosses.
pub open spec fn edge_first_face(edge: EdgeIndex) -> FaceIndex {
    face_of(first_other_axis(edge.axis()), edge.first_side())
}

/// The second face that the edge neighbour walk crosses.
pub open spec fn edge_second_face(edge: EdgeIndex) -> FaceIndex {
    face_of(second_other_axis(edge.axis()), edge.second_side())
}

/// The face that the vertex neighbour search crosses on `axis`.
pub open spec fn vertex_face(vertex: VertexIndex, axis: nat) -> FaceIndex {
    face_of(axis, vertex_bit(vertex.repr(), axis))
}

impl NodeAddress {
    /// The node across `edge_index`: the face neighbour across the edge's
    /// face on its first other axis, then that node's face neighbour across
    /// the edge's face on its second other axis.
    pub fn get_edge_neighbor_address(&self, edge_index: EdgeIndex) -> (r: NodeAddress)
        requires
            face_walk_len(self.raw_spec(), self.depth_spec(), edge_first_face(edge_index)) <= 16,
            face_walk_len(
                face_neighbor_result(self.raw_spec(), self.depth_spec(), edge_first_face(edge_index)).0,
                face_neighbor_result(self.raw_spec(), self.depth_spec(), edge_first_face(edge_index)).1,
                edge_second_face(edge_index),
            ) <= 16,
        ensures
            ({
                let first = face_neighbor_result(
                    self.raw_spec(),
                    self.depth_spec(),
                    edge_first_face(edge_index),
                );
                let second = face_neighbor_result(first.0, first.1, edge_second_face(edge_index));
                r.raw_spec() == second.0 && r.depth_spec() == second.1
            }),
    {
        let faces = neighbor_node_in_edge(edge_index);
        let mut neighbor_address = *self;
        neighbor_address = neighbor_address.get_face_neighbor_address(faces[0]);
        neighbor_address = neighbor_address.get_face_neighbor_address(faces[1]);
        neighbor_address
    }

    /// Searches the faces of `vertex_index` on the x, y and z axes in turn,
    /// each time from this node itself, and keeps the last result: the face
    /// neighbour across the vertex's z face.
    pub fn get_vertex_neighbor_address(&self, vertex_index: VertexIndex) -> (r: NodeAddress)
        requires
            forall|axis: nat|
                axis < 3 ==> face_walk_len(
                    self.raw_spec(),
                    self.depth_spec(),
                    #[trigger] vertex_face(vertex_index, axis),
                ) <= 16,
        ensures
            r.raw_spec() == face_neighbor_result(
                self.raw_spec(),
                self.depth_spec(),
                vertex_face(vertex_index, 2),
            ).0,
            r.depth_spec() == face_neighbor_result(
                self.raw_spec(),
                self.depth_spec(),
                vertex_face(vertex_index, 2),
            ).1,
    {
        let faces = neighbor_node_in_vertex(vertex_index);
        assert(faces[0] == vertex_face(vertex_index, 0));
        assert(faces[1] == vertex_face(vertex_index, 1));
        assert(faces[2] == vertex_face(vertex_index, 2));
        let mut neighbor_address = *self;
        let mut i: usize = 0;
        while i < 3
            invariant
                0 <= i <= 3,
                faces[0] == vertex_face(vertex_index, 0),
                faces[1] == vertex_face(vertex_index, 1),
                faces[2] == vertex_face(vertex_index, 2),
                forall|axis: nat|
                    axis < 3 ==> face_walk_len(
                        self.raw_spec(),
                        self.depth_spec(),
                        #[trigger] vertex_face(vertex_index, axis),
                    ) <= 16,
                i > 0 ==> neighbor_address.raw_spec() == face_neighbor_result(
                    self.raw_spec(),
                    self.depth_spec(),
                    vertex_face(vertex_index, (i - 1) as nat),
                ).0 && neighbor_address.depth_spec() == face_neighbor_result(
                    self.raw_spec(),
                    self.depth_spec(),
                    vertex_face(vertex_index, (i - 1) as nat),
                ).1,
            decreases 3 - i,
        {
            assert(face_walk_len(self.raw_spec(), self.depth_spec(), vertex_face(vertex_index, i as nat)) <= 16);
            neighbor_address = self.get_face_neighbor_address(faces[i]);
            i = i + 1;
        }
        neighbor_address
    }
}


/// The change of the coordinate on `axis` when crossing `face`: +1 or -1 on
/// the face's axis, 0 on the others.
pub open spec fn face_step(face: FaceIndex, axis: nat) -> int {
    if axis == face.axis() {
        if face.side() == 1 {
            1
        } else {
            -1
        }
    } else {
        0
    }
}

/// A digit is the sum of its three axis bits.
pub proof fn lemma_digit_bits(p: nat)
    requires
        p < 8,
    ensures
        p == vertex_bit(p, 0) + 2 * vertex_bit(p, 1) + 4 * vertex_bit(p, 2),
        vertex_bit(p, 0) <= 1,
        vertex_bit(p, 1) <= 1,
        vertex_bit(p, 2) <= 1,
{
    assert(p == 0 || p == 1 || p == 2 || p == 3 || p == 4 || p == 5 || p == 6 || p == 7);
}

/// The bit of `n` on `axis`, as the crossing of `face` leaves it: flipped on
/// the face's axis, kept on the others.
pub open spec fn flipped_bit(face: FaceIndex, p: nat, axis: nat) -> nat {
    if axis == face.axis() {
        (1 - vertex_bit(p, axis)) as nat
    } else {
        vertex_bit(p, axis)
    }
}

/// Crossing a face flips the digit's bit on the face's axis and keeps the
/// others; the step stays in the parent when the bit was on the other side.
proof fn lemma_digit_flip(face: FaceIndex, p: nat)
    requires
        p < 8,
    ensures
        ({
            let step = neighbour_in_table(face, p);
            &&& step.0 < 8
            &&& vertex_bit(step.0, 0) == flipped_bit(face, p, 0)
            &&& vertex_bit(step.0, 1) == flipped_bit(face, p, 1)
            &&& vertex_bit(step.0, 2) == flipped_bit(face, p, 2)
            &&& step.1 == (vertex_bit(p, face.axis()) != face.side())
        }),
{
    match face {
        FaceIndex::Left => {
            if p == 0 {
            } else if p == 1 {
            } else if p == 2 {
            } else if p == 3 {
            } else if p == 4 {
            } else if p == 5 {
            } else if p == 6 {
            } else if p == 7 {
            }
        },
        FaceIndex::Right => {
            if p == 0 {
            } else if p == 1 {
            } else if p == 2 {
            } else if p == 3 {
            } else if p == 4 {
            } else if p == 5 {
            } else if p == 6 {
            } else if p == 7 {
            }
        },
        FaceIndex::Bottom => {
            if p == 0 {
            } else if p == 1 {
            } else if p == 2 {
            } else if p == 3 {
            } else if p == 4 {
            } else if p == 5 {
            } else if p == 6 {
            } else if p == 7 {
            }
        },
        FaceIndex::Top => {
            if p == 0 {
            } else if p == 1 {
            } else if p == 2 {
            } else if p == 3 {
            } else if p == 4 {
            } else if p == 5 {
            } else if p == 6 {
            } else if p == 7 {
            }
        },
        FaceIndex::Back => {
            if p == 0 {
            } else if p == 1 {
            } else if p == 2 {
            } else if p == 3 {
            } else if p == 4 {
            } else if p == 5 {
            } else if p == 6 {
            } else if p == 7 {
            }
        },
        FaceIndex::Front => {
            if p == 0 {
            } else if p == 1 {
            } else if p == 2 {
            } else if p == 3 {
            } else if p == 4 {
            } else if p == 5 {
            } else if p == 6 {
            } else if p == 7 {
            }
        },
    }
}

/// A coordinate of a node `depth` levels down is below `2^depth`.
pub proof fn lemma_path_coord_bound(raw: nat, depth: nat, axis: nat)
    ensures
        path_coord(raw, depth, axis) < pow2(depth),
    decreases depth,
{
    lemma2_to64();
    if depth > 0 {
        lemma_path_coord_bound(raw / 8, (depth - 1) as nat, axis);
        vstd::arithmetic::power2::lemma_pow2_unfold(depth);
        assert(vertex_bit(raw % 8, axis) <= 1);
    }
}

/// Appending digit `n` to path `q` gives the coordinates `2c + bit`.
pub proof fn lemma_path_coord_append(q: nat, n: nat, depth: nat, axis: nat)
    requires
        n < 8,
        depth > 0,
    ensures
        path_coord(q * 8 + n, depth, axis) == 2 * path_coord(q, (depth - 1) as nat, axis)
            + vertex_bit(n, axis),
{
    assert((q * 8 + n) / 8 == q);
    assert((q * 8 + n) % 8 == n);
}

/// Coordinates determine a path: two paths at the same depth with the same
/// coordinates on all three axes are equal.
pub proof fn lemma_coords_determine_path(r1: nat, r2: nat, depth: nat)
    requires
        r1 < pow8(depth),
        r2 < pow8(depth),
        forall|axis: nat| axis < 3 ==> #[trigger] path_coord(r1, depth, axis) == path_coord(r2, depth, axis),
    ensures
        r1 == r2,
    decreases depth,
{
    if depth == 0 {
    } else {
        let h1 = r1 / 8;
        let h2 = r2 / 8;
        let p1 = r1 % 8;
        let p2 = r2 % 8;
        lemma_digit_bits(p1);
        lemma_digit_bits(p2);
        assert forall|axis: nat| axis < 3 implies #[trigger] path_coord(h1, (depth - 1) as nat, axis)
            == path_coord(h2, (depth - 1) as nat, axis) && vertex_bit(p1, axis) == vertex_bit(p2, axis) by {
            assert(path_coord(r1, depth, axis) == path_coord(r2, depth, axis));
            assert(vertex_bit(p1, axis) <= 1 && vertex_bit(p2, axis) <= 1) by {
                assert(axis == 0 || axis == 1 || axis == 2);
            }
        }
        assert(path_coord(r1, depth, 0) == path_coord(r2, depth, 0));
        assert(path_coord(r1, depth, 1) == path_coord(r2, depth, 1));
        assert(path_coord(r1, depth, 2) == path_coord(r2, depth, 2));
        assert(h1 < pow8((depth - 1) as nat));
        assert(h2 < pow8((depth - 1) as nat));
        lemma_coords_determine_path(h1, h2, (depth - 1) as nat);
    }
}

/// The face neighbour is one step along the face's axis: it exists exactly when
/// the node is not on that face of the whole octree, it names a node at the same
/// depth, its coordinate on the face's axis is one more (right, top, front) or
/// one less (left, bottom, back), and its other coordinates are unchanged.
pub proof fn lemma_face_neighbor_moves_one_step(raw: nat, depth: nat, face: FaceIndex)
    requires
        raw < pow8(depth),
    ensures
        ({
            let c = path_coord(raw, depth, face.axis());
            face_neighbor_path(raw, depth, face) is Some <==> (if face.side() == 1 {
                c + 1 < pow2(depth)
            } else {
                c >= 1
            })
        }),
        face_neighbor_path(raw, depth, face) matches Some(q) ==> {
            &&& q < pow8(depth)
            &&& forall|axis: nat|
                axis < 3 ==> #[trigger] path_coord(q, depth, axis) == path_coord(raw, depth, axis) + face_step(face, axis)
        },
    decreases depth,
{
    lemma2_to64();
    let ax = face.axis();
    if depth == 0 {
    } else {
        let d1 = (depth - 1) as nat;
        let h = raw / 8;
        let p = raw % 8;
        lemma_digit_flip(face, p);
        lemma_digit_bits(p);
        let step = neighbour_in_table(face, p);
        let n = step.0;
        assert(h < pow8(d1));
        lemma_path_coord_bound(h, d1, ax);
        vstd::arithmetic::power2::lemma_pow2_unfold(depth);
        assert(face.side() <= 1);
        assert(ax < 3);
        if step.1 {
            let q = h * 8 + n;
            assert(q < pow8(depth));
            assert forall|axis: nat| axis < 3 implies #[trigger] path_coord(q, depth, axis) == path_coord(raw, depth, axis) + face_step(face, axis) by {
                lemma_path_coord_append(h, n, depth, axis);
            }
        } else {
            lemma_face_neighbor_moves_one_step(h, d1, face);
            match face_neighbor_path(h, d1, face) {
                Some(q1) => {
                    let q = q1 * 8 + n;
                    assert(q < pow8(depth));
                    assert forall|axis: nat| axis < 3 implies #[trigger] path_coord(q, depth, axis) == path_coord(raw, depth, axis) + face_step(face, axis) by {
                        lemma_path_coord_append(q1, n, depth, axis);
                    }
                },
                None => {},
            }
        }
    }
}

/// Crossing a face and then the opposite face returns to the node.
pub proof fn lemma_face_neighbor_twin(raw: nat, depth: nat, face: FaceIndex)
    requires
        raw < pow8(depth),
        face_neighbor_path(raw, depth, face) is Some,
    ensures
        face_neighbor_path(face_neighbor_path(raw, depth, face).unwrap(), depth, face.opposite())
            == Some(raw),
{
    let q = face_neighbor_path(raw, depth, face).unwrap();
    let back = face.opposite();
    assert(back.axis() == face.axis() && back.side() == 1 - face.side());
    lemma_face_neighbor_moves_one_step(raw, depth, face);
    lemma_face_neighbor_moves_one_step(q, depth, back);
    lemma_path_coord_bound(raw, depth, face.axis());
    let r2 = face_neighbor_path(q, depth, back).unwrap();
    assert forall|axis: nat| axis < 3 implies #[trigger] path_coord(r2, depth, axis) == path_coord(
        raw,
        depth,
        axis,
    ) by {
        assert(path_coord(q, depth, axis) == path_coord(q, depth, axis));
    }
    lemma_coords_determine_path(r2, raw, depth);
}

/// Going to subnode `sub` and back to the parent returns to the node, and the
/// subnode's position in its parent is `sub`; the subnode's coordinates are
/// twice the node's plus the bits of `sub`.
pub proof fn lemma_child_then_parent(raw: nat, depth: nat, sub: SubNodeIndex)
    ensures
        (raw * 8 + sub.repr()) / 8 == raw,
        vertex_of((raw * 8 + sub.repr()) % 8) == sub,
        raw < pow8(depth) ==> raw * 8 + sub.repr() < pow8(depth + 1),
        forall|axis: nat|
            #![trigger path_coord(raw * 8 + sub.repr(), depth + 1, axis)]
            path_coord(raw * 8 + sub.repr(), depth + 1, axis) == 2 * path_coord(raw, depth, axis)
                + vertex_bit(sub.repr(), axis),
{
    sub.lemma_repr_bounds();
    assert forall|axis: nat|
        #![trigger path_coord(raw * 8 + sub.repr(), depth + 1, axis)]
        path_coord(raw * 8 + sub.repr(), depth + 1, axis) == 2 * path_coord(raw, depth, axis)
            + vertex_bit(sub.repr(), axis) by {
        lemma_path_coord_append(raw, sub.repr(), depth + 1, axis);
    }
}

/// Concatenating with the root changes nothing, on either side.
pub proof fn lemma_concat_root(a: nat, b: nat, d: nat)
    requires
        a < 0x1_0000_0000_0000,
        b < 0x1_0000_0000_0000,
        3 * d < 64,
    ensures
        concat_raw(a, 0, 0) == a,
        concat_raw(0, b, d) == b,
{
    let x = a as u64;
    let y = b as u64;
    let s = (3 * d) as u64;
    assert((x << 0u64) | 0u64 == x) by (bit_vector);
    assert((0u64 << s) | y == y) by (bit_vector);
}

/// Concatenation then descent is descent then concatenation: appending a
/// subnode to the lower address appends it to the concatenated one.
pub proof fn lemma_concat_then_child(a: nat, b: nat, d: nat, sub: SubNodeIndex)
    requires
        3 * (d + 1) < 64,
        b < pow8(d),
        a * pow8(d + 1) + b * 8 + sub.repr() < 0x1_0000_0000_0000,
    ensures
        concat_raw(a, b * 8 + sub.repr(), d + 1) == concat_raw(a, b, d) * 8 + sub.repr(),
{
    sub.lemma_repr_bounds();
    let p = sub.repr();
    assert(pow8(d + 1) == 8 * pow8(d));
    lemma_pow8_positive(d);
    assert(b * 8 + p < pow8(d + 1)) by (nonlinear_arith)
        requires
            b < pow8(d),
            p < 8,
            pow8(d + 1) == 8 * pow8(d),
    ;
    assert(a * pow8(d + 1) == (a * pow8(d)) * 8) by (nonlinear_arith)
        requires
            pow8(d + 1) == 8 * pow8(d),
    ;
    assert(a * pow8(d) + b < 0x1_0000_0000_0000);
    lemma_concat_raw_is_append(a, b * 8 + p, d + 1);
    lemma_concat_raw_is_append(a, b, d);
}


/// Appending a path of `db` levels to a path of `da` levels gives a path of
/// `da + db` levels.
proof fn lemma_append_bound(a: nat, da: nat, b: nat, db: nat)
    requires
        a < pow8(da),
        b < pow8(db),
    ensures
        a * pow8(db) + b < pow8(da + db),
{
    lemma_pow8_adds(da, db);
    assert(a * pow8(db) + b < pow8(da) * pow8(db)) by (nonlinear_arith)
        requires
            a < pow8(da),
            b < pow8(db),
    ;
}

/// Concatenation is associative: for addresses whose depths add up to at
/// most 16, `(a ++ b) ++ c` and `a ++ (b ++ c)` have one path (and, as the
/// depths add, one depth), and every concatenation on the way fits.
pub proof fn lemma_concat_associative(a: NodeAddress, b: NodeAddress, c: NodeAddress)
    requires
        a.well_formed(),
        b.well_formed(),
        c.well_formed(),
        a.depth_spec() + b.depth_spec() + c.depth_spec() <= 16,
    ensures
        concat_raw(a.raw_spec(), b.raw_spec(), b.depth_spec()) < RAW_ADDRESS_LIMIT,
        concat_raw(b.raw_spec(), c.raw_spec(), c.depth_spec()) < RAW_ADDRESS_LIMIT,
        concat_raw(concat_raw(a.raw_spec(), b.raw_spec(), b.depth_spec()), c.raw_spec(), c.depth_spec())
            < RAW_ADDRESS_LIMIT,
        concat_raw(concat_raw(a.raw_spec(), b.raw_spec(), b.depth_spec()), c.raw_spec(), c.depth_spec())
            == concat_raw(
            a.raw_spec(),
            concat_raw(b.raw_spec(), c.raw_spec(), c.depth_spec()),
            b.depth_spec() + c.depth_spec(),
        ),
{
    let (ra, rb, rc) = (a.raw_spec(), b.raw_spec(), c.raw_spec());
    let (da, db, dc) = (a.depth_spec(), b.depth_spec(), c.depth_spec());
    lemma_pow8_16();
    lemma_pow8_mono(da + db + dc, 16);
    lemma_pow8_mono(da + db, da + db + dc);
    lemma_pow8_mono(db + dc, da + db + dc);
    lemma_pow8_positive(da);
    lemma_pow8_positive(db);
    lemma_pow8_positive(dc);
    lemma_append_bound(ra, da, rb, db);
    lemma_append_bound(rb, db, rc, dc);
    let ab = ra * pow8(db) + rb;
    let bc = rb * pow8(dc) + rc;
    lemma_append_bound(ab, da + db, rc, dc);
    lemma_append_bound(ra, da, bc, db + dc);
    assert(da + db + dc == da + (db + dc));
    lemma_concat_raw_is_append(ra, rb, db);
    lemma_concat_raw_is_append(rb, rc, dc);
    lemma_concat_raw_is_append(ab, rc, dc);
    lemma_concat_raw_is_append(ra, bc, db + dc);
    lemma_pow8_adds(db, dc);
    assert(ab * pow8(dc) + rc == ra * pow8(db + dc) + bc) by (nonlinear_arith)
        requires
            ab == ra * pow8(db) + rb,
            bc == rb * pow8(dc) + rc,
            pow8(db + dc) == pow8(db) * pow8(dc),
    ;
}

/// Concatenating the child `sub` of the root below an address gives its
/// child `sub`.
pub proof fn lemma_concat_child_of_root(a: NodeAddress, sub: SubNodeIndex)
    requires
        a.well_formed(),
        a.depth_spec() <= 15,
    ensures
        concat_raw(a.raw_spec(), 0 * 8 + sub.repr(), 0 + 1) == a.raw_spec() * 8 + sub.repr(),
        a.raw_spec() * 8 + sub.repr() < RAW_ADDRESS_LIMIT,
{
    sub.lemma_repr_bounds();
    lemma_pow8_16();
    lemma_pow8_mono(a.depth_spec() + 1, 16);
    lemma_pow8_positive(0);
    lemma_append_bound(a.raw_spec(), a.depth_spec(), sub.repr(), 1);
    assert(pow8(1) == 8);
    lemma_concat_then_child(a.raw_spec(), 0, 0, sub);
    lemma_concat_root(a.raw_spec(), 0, 0);
}

} // verus!

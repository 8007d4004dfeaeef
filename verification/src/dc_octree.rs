//! The octree that dual contouring walks: its nodes level by level, each
//! a branch or a leaf with the material at each of its eight corners.
//!
//! A node is held in the map of its level under its cell's key
//! (`node_key`). The float data of a node (its box, its vertex and normal
//! estimates, its error quadric) are not read by the walk and are kept
//! beside the octree by the code that computes them.
use std::collections::HashMap;
use vstd::prelude::*;
use crate::morton_code::{MortonCode, node_key, lemma_node_key_injective};
use crate::coord_address::{
    ceil_log2,
    octree_depth_of_size,
    shape_linearize,
    cell_index,
    lemma_cell_index,
    lemma_cube_side_bound,
    lemma_ceil_log2_is_least,
    lemma_ceil_log2_small,
};
use crate::math::UVec3;
use crate::tables::vertex_bit;
use vstd::arithmetic::power2::{pow2, lemma2_to64};
use crate::tables::VertexIndex;
use crate::buffer_type::IsosurfaceSide;

verus! {

broadcast use vstd::std_specs::hash::group_hash_axioms;

/// Whether a node has children in the octree.
#[derive(Debug, Clone, Copy, PartialEq, Eq, Hash, Structural)]
pub enum NodeType {
    Branch,
    Leaf,
}

/// What fills a voxel corner: air above the surface, block below.
#[derive(Debug, Clone, Copy, PartialEq, Eq, Hash, Structural)]
pub enum VoxelMaterialType {
    Air,
    Block,
}

impl VoxelMaterialType {
    /// The material numbered `value`: 0 is air, 1 is block.
    pub fn from(value: u32) -> (r: VoxelMaterialType)
        requires
            value < 2,
        ensures
            r == if value == 0 {
                VoxelMaterialType::Air
            } else {
                VoxelMaterialType::Block
            },
    {
        if value == 0 {
            VoxelMaterialType::Air
        } else {
            VoxelMaterialType::Block
        }
    }
}

/// A node of the octree: its type, its cell, and at each of its corners
/// (by vertex number) the material and the side of the surface.
#[derive(Debug, Clone, Copy)]
pub struct Node {
    pub node_type: NodeType,
    pub address: MortonCode,
    pub vertices_mat_types: [VoxelMaterialType; 8],
    pub vertices_side_types: [IsosurfaceSide; 8],
}

impl Node {
    /// A node of `node_type` at `address`, air outside the surface at every
    /// corner.
    pub fn new(node_type: NodeType, address: MortonCode) -> (r: Node)
        ensures
            r.node_type == node_type,
            r.address == address,
            forall|v: int| 0 <= v < 8 ==> #[trigger] r.vertices_mat_types[v] == VoxelMaterialType::Air,
            forall|v: int| 0 <= v < 8 ==> #[trigger] r.vertices_side_types[v] == IsosurfaceSide::Outside,
    {
        Node {
            node_type,
            address,
            vertices_mat_types: [VoxelMaterialType::Air; 8],
            vertices_side_types: [IsosurfaceSide::Outside; 8],
        }
    }
}

/// The nodes of one level, by the key of their cell.
pub struct OctreeLevel {
    pub address_node_map: HashMap<u64, Node>,
}

impl Default for OctreeLevel {
    fn default() -> (r: OctreeLevel)
        ensures
            r.address_node_map@ == Map::<u64, Node>::empty(),
    {
        OctreeLevel { address_node_map: HashMap::new() }
    }
}

/// The levels of the octree, the root level first, and the size of its
/// leaf grid.
pub struct Octree {
    pub levels: Vec<OctreeLevel>,
    pub node_shape: [u32; 3],
}

impl Octree {
    /// An octree with no levels over a leaf grid of `node_shape`.
    pub fn new(node_shape: [u32; 3]) -> (r: Octree)
        ensures
            r.levels.len() == 0,
            r.node_shape == node_shape,
    {
        Octree { levels: Vec::new(), node_shape }
    }

    /// The node that the level of `c` holds under `c`'s key, at `c`.
    pub open spec fn node_at(self, c: MortonCode) -> Option<Node> {
        if c.level_spec() < self.levels.len() && self.levels[c.level_spec() as int].address_node_map@.contains_key(
            node_key(c),
        ) {
            let n = self.levels[c.level_spec() as int].address_node_map@[node_key(c)];
            Some(
                Node {
                    node_type: n.node_type,
                    address: c,
                    vertices_mat_types: n.vertices_mat_types,
                    vertices_side_types: n.vertices_side_types,
                },
            )
        } else {
            None
        }
    }

    /// The node that the octree holds for cell `address`.
    pub fn get_node(&self, address: &MortonCode) -> (r: Option<Node>)
        ensures
            r == self.node_at(*address),
    {
        let level = address.level() as usize;
        if self.levels.len() <= level {
            return None;
        }
        let key = address.key();
        match self.levels[level].address_node_map.get(&key) {
            Some(n) => Some(
                Node {
                    node_type: n.node_type,
                    address: *address,
                    vertices_mat_types: n.vertices_mat_types,
                    vertices_side_types: n.vertices_side_types,
                },
            ),
            None => None,
        }
    }

    /// Puts `node` in the map of its level, where the octree has that
    /// level.
    pub fn insert_leaf_node(&mut self, node: Node)
        ensures
            final(self).levels.len() == old(self).levels.len(),
            final(self).node_shape == old(self).node_shape,
            forall|l: int|
                0 <= l < old(self).levels.len() ==> #[trigger] final(self).levels[l].address_node_map@
                    == if l == node.address.level_spec() {
                    old(self).levels[l].address_node_map@.insert(node_key(node.address), node)
                } else {
                    old(self).levels[l].address_node_map@
                },
    {
        let level = node.address.level() as usize;
        if self.levels.len() <= level {
            return;
        }
        let key = node.address.key();
        self.levels[level].address_node_map.insert(key, node);
    }
}

/// An octree being contoured: the octree, and whether it is the octree of
/// a seam between chunks.
pub struct OctreeProxy<'a> {
    pub octree: &'a Octree,
    pub is_seam: bool,
}

impl<'a> OctreeProxy<'a> {
    /// The node that the octree holds for cell `address`.
    pub fn get_node(&self, address: &MortonCode) -> (r: Option<Node>)
        ensures
            r == self.octree.node_at(*address),
    {
        self.octree.get_node(address)
    }
}

/// The child `c` of cell `p` that `lower` (the map of `p`'s level plus one)
/// holds.
pub open spec fn child_in(lower: Map<u64, Node>, p: MortonCode, c: nat) -> Option<Node> {
    let k = node_key(p.child_spec(c));
    if lower.contains_key(k) {
        Some(lower[k])
    } else {
        None
    }
}

/// Whether every one of the first `k` children of `p` that `lower` holds is
/// a leaf.
pub open spec fn all_leaf_upto(lower: Map<u64, Node>, p: MortonCode, k: nat) -> bool {
    forall|c: nat|
        c < k ==> (#[trigger] child_in(lower, p, c) matches Some(n) ==> n.node_type
            == NodeType::Leaf)
}

/// Of the last leaf among the first `k` children of `p`, the material at
/// the corner opposite its own (the corner at the middle of `p`).
pub open spec fn mid_mat_upto(lower: Map<u64, Node>, p: MortonCode, k: nat) -> Option<
    VoxelMaterialType,
>
    decreases k,
{
    if k == 0 {
        None
    } else {
        match child_in(lower, p, (k - 1) as nat) {
            Some(n) => if n.node_type == NodeType::Leaf {
                Some(n.vertices_mat_types[7 - (k - 1)])
            } else {
                mid_mat_upto(lower, p, (k - 1) as nat)
            },
            None => mid_mat_upto(lower, p, (k - 1) as nat),
        }
    }
}

/// The material at corner `v` of the branch over the children of `p`: where
/// all its children are leaves, that of child `v` at its corner `v`, or
/// where there is no child `v`, the material at the middle; air where some
/// child is a branch.
pub open spec fn parent_mat(lower: Map<u64, Node>, p: MortonCode, v: nat) -> VoxelMaterialType {
    if all_leaf_upto(lower, p, 8) {
        match child_in(lower, p, v) {
            Some(n) => n.vertices_mat_types[v as int],
            None => mid_mat_upto(lower, p, 8).unwrap(),
        }
    } else {
        VoxelMaterialType::Air
    }
}

/// The branch node over the children of `p` that `lower` holds.
pub open spec fn parent_node(lower: Map<u64, Node>, p: MortonCode) -> Node {
    Node {
        node_type: NodeType::Branch,
        address: p,
        vertices_mat_types: [
            parent_mat(lower, p, 0),
            parent_mat(lower, p, 1),
            parent_mat(lower, p, 2),
            parent_mat(lower, p, 3),
            parent_mat(lower, p, 4),
            parent_mat(lower, p, 5),
            parent_mat(lower, p, 6),
            parent_mat(lower, p, 7),
        ],
        vertices_side_types: [
            IsosurfaceSide::Outside,
            IsosurfaceSide::Outside,
            IsosurfaceSide::Outside,
            IsosurfaceSide::Outside,
            IsosurfaceSide::Outside,
            IsosurfaceSide::Outside,
            IsosurfaceSide::Outside,
            IsosurfaceSide::Outside,
        ],
    }
}

/// The material at corner `v` of the branch over the children found.
fn parent_mat_of(
    node_mats: &Vec<Option<VoxelMaterialType>>,
    mid_mat: Option<VoxelMaterialType>,
    v: usize,
) -> (r: VoxelMaterialType)
    requires
        v < node_mats.len(),
        node_mats[v as int] is None ==> mid_mat is Some,
    ensures
        r == match node_mats[v as int] {
            Some(m) => m,
            None => mid_mat.unwrap(),
        },
{
    match node_mats[v] {
        Some(m) => m,
        None => mid_mat.unwrap(),
    }
}

proof fn lemma_mid_mat_some(lower: Map<u64, Node>, p: MortonCode, k: nat, c: nat)
    requires
        c < k,
        child_in(lower, p, c) matches Some(n) && n.node_type == NodeType::Leaf,
    ensures
        mid_mat_upto(lower, p, k) is Some,
    decreases k,
{
    if c < k - 1 {
        match child_in(lower, p, (k - 1) as nat) {
            Some(n) => if n.node_type != NodeType::Leaf {
                lemma_mid_mat_some(lower, p, (k - 1) as nat, c);
            },
            None => lemma_mid_mat_some(lower, p, (k - 1) as nat, c),
        }
    }
}

/// The branch node over the children of `p` (one of which `lower` holds).
fn make_parent_node(lower: &HashMap<u64, Node>, p: MortonCode, some_child: usize) -> (r: Node)
    requires
        p.level_spec() < 21,
        some_child < 8,
        child_in(lower@, p, some_child as nat) is Some,
    ensures
        r == parent_node(lower@, p),
{
    let mut all_children_leaf = true;
    let mut mid_mat: Option<VoxelMaterialType> = None;
    let mut node_mats: Vec<Option<VoxelMaterialType>> = Vec::new();
    let mut c: usize = 0;
    while c < 8
        invariant
            p.level_spec() < 21,
            c <= 8,
            all_children_leaf == all_leaf_upto(lower@, p, c as nat),
            mid_mat == mid_mat_upto(lower@, p, c as nat),
            node_mats.len() == c,
            forall|v: int|
                0 <= v < c ==> #[trigger] node_mats[v] == match child_in(lower@, p, v as nat) {
                    Some(n) => if n.node_type == NodeType::Leaf {
                        Some(n.vertices_mat_types[v])
                    } else {
                        None
                    },
                    None => None,
                },
        decreases 8 - c,
    {
        let child = p.child(VertexIndex::from_repr(c).unwrap()).unwrap();
        let key = child.key();
        let ghost before_mats = node_mats@;
        match lower.get(&key) {
            Some(n) => {
                match n.node_type {
                    NodeType::Branch => {
                        all_children_leaf = false;
                        node_mats.push(None);
                    },
                    NodeType::Leaf => {
                        mid_mat = Some(n.vertices_mat_types[7 - c]);
                        node_mats.push(Some(n.vertices_mat_types[c]));
                    },
                }
            },
            None => {
                node_mats.push(None);
            },
        }
        assert(key == node_key(p.child_spec(c as nat)));
        assert(all_children_leaf == all_leaf_upto(lower@, p, (c + 1) as nat)) by {
            if all_leaf_upto(lower@, p, (c + 1) as nat) {
                assert(all_leaf_upto(lower@, p, c as nat));
                assert(child_in(lower@, p, c as nat) matches Some(n) ==> n.node_type == NodeType::Leaf);
            } else {
                let c2 = choose|c2: nat|
                    c2 < c + 1 && !(#[trigger] child_in(lower@, p, c2) matches Some(n) ==> n.node_type
                        == NodeType::Leaf);
                if c2 < c {
                    assert(!all_leaf_upto(lower@, p, c as nat));
                }
            }
        }
        assert forall|v: int| 0 <= v < c + 1 implies #[trigger] node_mats[v] == match child_in(
            lower@,
            p,
            v as nat,
        ) {
            Some(n) => if n.node_type == NodeType::Leaf {
                Some(n.vertices_mat_types[v])
            } else {
                None
            },
            None => None,
        } by {
            if v < c {
                assert(node_mats[v] == before_mats[v]);
            }
        }
        c = c + 1;
    }
    let mut node = Node::new(NodeType::Branch, p);
    if all_children_leaf {
        proof {
            if let Some(n) = child_in(lower@, p, some_child as nat) {
                lemma_mid_mat_some(lower@, p, 8, some_child as nat);
            }
            assert forall|v: int| 0 <= v < 8 && node_mats[v] is None implies mid_mat is Some by {}
        }
        node.vertices_mat_types = [
            parent_mat_of(&node_mats, mid_mat, 0),
            parent_mat_of(&node_mats, mid_mat, 1),
            parent_mat_of(&node_mats, mid_mat, 2),
            parent_mat_of(&node_mats, mid_mat, 3),
            parent_mat_of(&node_mats, mid_mat, 4),
            parent_mat_of(&node_mats, mid_mat, 5),
            parent_mat_of(&node_mats, mid_mat, 6),
            parent_mat_of(&node_mats, mid_mat, 7),
        ];
    }
    assert(node.vertices_mat_types =~= parent_node(lower@, p).vertices_mat_types);
    assert(node.vertices_side_types =~= parent_node(lower@, p).vertices_side_types);
    node
}

/// Whether `k` is the key of the parent of a cell below the root level
/// whose key is among `seen` and in `lower`.
pub open spec fn parent_key_among(lower: Map<u64, Node>, seen: Set<u64>, k: u64) -> bool {
    exists|c: MortonCode|
        #![trigger node_key(c.parent_spec()), seen.contains(node_key(c))]
        c.wf() && c.level_spec() >= 1 && seen.contains(node_key(c)) && lower.contains_key(
            node_key(c),
        ) && node_key(c.parent_spec()) == k
}

/// The cell whose key is `k`.
pub open spec fn key_cell(k: u64) -> MortonCode {
    choose|p: MortonCode| p.wf() && node_key(p) == k
}

/// `upper` with, for each cell among `seen` that `lower` holds, the branch
/// over the children of its parent.
pub open spec fn with_parents(lower: Map<u64, Node>, upper: Map<u64, Node>, seen: Set<u64>) -> Map<
    u64,
    Node,
> {
    Map::new(
        |k: u64| upper.contains_key(k) || parent_key_among(lower, seen, k),
        |k: u64|
            if parent_key_among(lower, seen, k) {
                parent_node(lower, key_cell(k))
            } else {
                upper[k]
            },
    )
}

/// Adds to `upper` the branch over the children of the parent of every
/// cell that `lower` holds.
fn add_parents(lower: &HashMap<u64, Node>, upper: &mut HashMap<u64, Node>)
    ensures
        final(upper)@ == with_parents(lower@, old(upper)@, lower@.dom()),
{
    let ghost start = upper@;
    let ghost mut seen: Seq<u64> = Seq::empty();
    assert(upper@ =~= with_parents(lower@, start, seen.to_set()));
    for k in iter: lower.keys()
        invariant
            iter.seq().unref().to_set() == lower@.dom(),
            seen == iter.seq().unref().take(iter.index() as int),
            upper@ == with_parents(lower@, start, seen.to_set()),
            iter.index() == iter.seq().len() ==> upper@ == with_parents(lower@, start, lower@.dom()),
    {
        let ghost before = upper@;
        let ghost seen_old = seen;
        proof {
            assert(iter.seq().unref().take(iter.index() as int + 1) =~= seen.push(*k));
            assert(lower@.dom().contains(*k)) by {
                assert(iter.seq().unref().contains(*k));
                assert(iter.seq().unref().to_set().contains(*k));
            }
        }
        if let Some(c) = MortonCode::from_key(*k) {
            if let Some(p) = c.parent() {
                let d = c.get_subnode_index();
                proof {
                    c.lemma_parent_spec();
                    c.parent_spec().lemma_child_spec(c, d.repr());
                    d.lemma_repr_bounds();
                }
                let node = make_parent_node(lower, p, d.to_index());
                let pk = p.key();
                upper.insert(pk, node);
                proof {
                    let new_seen = seen_old.push(*k).to_set();
                    assert forall|x: u64| #[trigger] parent_key_among(lower@, new_seen, x) == (
                    parent_key_among(lower@, seen_old.to_set(), x) || x == pk) by {
                        if parent_key_among(lower@, new_seen, x) {
                            let c2 = choose|c2: MortonCode|
                                #![trigger node_key(c2.parent_spec()), new_seen.contains(node_key(c2))]
                                c2.wf() && c2.level_spec() >= 1 && new_seen.contains(node_key(c2))
                                    && lower@.contains_key(node_key(c2)) && node_key(c2.parent_spec()) == x;
                            if node_key(c2) == *k {
                                lemma_node_key_injective(c2, c);
                            } else {
                                assert(seen_old.to_set().contains(node_key(c2)));
                            }
                        }
                        if x == pk {
                            assert(seen_old.push(*k)[seen_old.len() as int] == *k);
                            assert(seen_old.push(*k).contains(*k));
                            assert(new_seen.contains(node_key(c)));
                        }
                        if parent_key_among(lower@, seen_old.to_set(), x) {
                            let c2 = choose|c2: MortonCode|
                                #![trigger node_key(c2.parent_spec()), seen_old.to_set().contains(node_key(c2))]
                                c2.wf() && c2.level_spec() >= 1 && seen_old.to_set().contains(node_key(c2))
                                    && lower@.contains_key(node_key(c2)) && node_key(c2.parent_spec()) == x;
                            assert(new_seen.contains(node_key(c2)));
                        }
                    }
                    assert(key_cell(pk) == p) by {
                        let q = key_cell(pk);
                        assert(p.wf() && node_key(p) == pk);
                        lemma_node_key_injective(q, p);
                    }
                    assert(upper@ =~= with_parents(lower@, start, new_seen));
                }
            } else {
                proof {
                    let new_seen = seen_old.push(*k).to_set();
                    assert forall|x: u64| #[trigger] parent_key_among(lower@, new_seen, x) == parent_key_among(
                        lower@,
                        seen_old.to_set(),
                        x,
                    ) by {
                        if parent_key_among(lower@, new_seen, x) {
                            let c2 = choose|c2: MortonCode|
                                #![trigger node_key(c2.parent_spec()), new_seen.contains(node_key(c2))]
                                c2.wf() && c2.level_spec() >= 1 && new_seen.contains(node_key(c2))
                                    && lower@.contains_key(node_key(c2)) && node_key(c2.parent_spec()) == x;
                            if node_key(c2) == *k {
                                lemma_node_key_injective(c2, c);
                            } else {
                                assert(seen_old.to_set().contains(node_key(c2)));
                            }
                        }
                        if parent_key_among(lower@, seen_old.to_set(), x) {
                            let c2 = choose|c2: MortonCode|
                                #![trigger node_key(c2.parent_spec()), seen_old.to_set().contains(node_key(c2))]
                                c2.wf() && c2.level_spec() >= 1 && seen_old.to_set().contains(node_key(c2))
                                    && lower@.contains_key(node_key(c2)) && node_key(c2.parent_spec()) == x;
                            assert(new_seen.contains(node_key(c2)));
                        }
                    }
                    assert(upper@ =~= with_parents(lower@, start, new_seen));
                }
            }
        } else {
            proof {
                let new_seen = seen_old.push(*k).to_set();
                assert forall|x: u64| #[trigger] parent_key_among(lower@, new_seen, x) == parent_key_among(
                    lower@,
                    seen_old.to_set(),
                    x,
                ) by {
                    if parent_key_among(lower@, new_seen, x) {
                        let c2 = choose|c2: MortonCode|
                            #![trigger node_key(c2.parent_spec()), new_seen.contains(node_key(c2))]
                            c2.wf() && c2.level_spec() >= 1 && new_seen.contains(node_key(c2))
                                && lower@.contains_key(node_key(c2)) && node_key(c2.parent_spec()) == x;
                        assert(node_key(c2) != *k);
                        assert(seen_old.to_set().contains(node_key(c2)));
                    }
                    if parent_key_among(lower@, seen_old.to_set(), x) {
                        let c2 = choose|c2: MortonCode|
                            #![trigger node_key(c2.parent_spec()), seen_old.to_set().contains(node_key(c2))]
                            c2.wf() && c2.level_spec() >= 1 && seen_old.to_set().contains(node_key(c2))
                                && lower@.contains_key(node_key(c2)) && node_key(c2.parent_spec()) == x;
                        assert(new_seen.contains(node_key(c2)));
                    }
                }
                assert(upper@ =~= with_parents(lower@, start, new_seen));
            }
        }
        proof {
            seen = seen.push(*k);
        }
        proof {
            assert(iter.index() + 1 == iter.seq().len() ==> seen =~= iter.seq().unref());
            assert(iter.index() + 1 == iter.seq().len() ==> seen.to_set() =~= lower@.dom());
        }
    }
}

impl Octree {
    /// What building the branches bottom up makes of `before`: the same
    /// levels, each above the leaf level gaining, for every node of the
    /// (built) level below, the branch over the children of its parent.
    pub open spec fn built_up(before: Octree, after: Octree) -> bool {
        &&& after.levels.len() == before.levels.len()
        &&& after.node_shape == before.node_shape
        &&& forall|l: int|
            0 <= l < before.levels.len() ==> #[trigger] after.levels[l].address_node_map@ == if l
                < ceil_log2(before.node_shape[0] as nat) {
                with_parents(
                    after.levels[l + 1].address_node_map@,
                    before.levels[l].address_node_map@,
                    after.levels[l + 1].address_node_map@.dom(),
                )
            } else {
                before.levels[l].address_node_map@
            }
    }

    /// The depth of an octree over a leaf grid of `node_shape`: `ceil(log2)`
    /// of its side along x.
    pub fn get_octree_depth(node_shape: &[u32; 3]) -> (r: u8)
        ensures
            r == ceil_log2(node_shape[0] as nat),
    {
        octree_depth_of_size(node_shape[0]) as u8
    }

    /// Builds the branches above the leaves, from the deepest level up: each
    /// level above the leaf level gains, for every node of the level below,
    /// the branch over the children of that node's parent.
    pub fn build_bottom_up_from_leaf_nodes(octree: &mut Octree)
        requires
            old(octree).levels.len() > ceil_log2(old(octree).node_shape[0] as nat),
        ensures
            Octree::built_up(*old(octree), *final(octree)),
    {
        let depth = Octree::get_octree_depth(&octree.node_shape) as usize;
        let ghost old_levels = octree.levels@;
        let mut i: usize = depth;
        while i > 0
            invariant
                depth == ceil_log2(octree.node_shape[0] as nat),
                octree.node_shape == old(octree).node_shape,
                old_levels == old(octree).levels@,
                octree.levels.len() == old_levels.len(),
                depth < octree.levels.len(),
                i <= depth,
                forall|l: int|
                    0 <= l < i ==> #[trigger] octree.levels[l].address_node_map@
                        == old_levels[l].address_node_map@,
                forall|l: int|
                    i <= l < octree.levels.len() ==> #[trigger] octree.levels[l].address_node_map@
                        == if l < depth {
                        with_parents(
                            octree.levels[l + 1].address_node_map@,
                            old_levels[l].address_node_map@,
                            octree.levels[l + 1].address_node_map@.dom(),
                        )
                    } else {
                        old_levels[l].address_node_map@
                    },
            decreases i,
        {
            i = i - 1;
            let ghost before = octree.levels@;
            let mut current: HashMap<u64, Node> = HashMap::new();
            std::mem::swap(&mut current, &mut octree.levels[i].address_node_map);
            add_parents(&octree.levels[i + 1].address_node_map, &mut current);
            octree.levels[i].address_node_map = current;
            assert forall|l: int| i <= l < octree.levels.len() implies #[trigger] octree.levels[l].address_node_map@
                == if l < depth {
                with_parents(
                    octree.levels[l + 1].address_node_map@,
                    old_levels[l].address_node_map@,
                    octree.levels[l + 1].address_node_map@.dom(),
                )
            } else {
                old_levels[l].address_node_map@
            } by {
                if l > i {
                    assert(octree.levels[l] == before[l]);
                    if l + 1 < octree.levels.len() {
                        assert(octree.levels[l + 1] == before[l + 1]);
                    }
                }
            }
        }
    }
}

/// After the branches are added, the parent of every node of the level
/// below (under the root) is in the level above, a branch over that node's
/// siblings.
pub proof fn lemma_with_parents_holds_parent(
    lower: Map<u64, Node>,
    upper: Map<u64, Node>,
    c: MortonCode,
)
    requires
        c.wf(),
        c.level_spec() >= 1,
        lower.contains_key(node_key(c)),
    ensures
        with_parents(lower, upper, lower.dom()).contains_key(node_key(c.parent_spec())),
        with_parents(lower, upper, lower.dom())[node_key(c.parent_spec())] == parent_node(
            lower,
            c.parent_spec(),
        ),
        parent_node(lower, c.parent_spec()).node_type == NodeType::Branch,
{
    c.lemma_parent_spec();
    let pk = node_key(c.parent_spec());
    assert(parent_key_among(lower, lower.dom(), pk));
    let q = key_cell(pk);
    assert(c.parent_spec().wf() && node_key(c.parent_spec()) == pk);
    lemma_node_key_injective(q, c.parent_spec());
}


impl Octree {
    /// Whether node `n`, held under key `k`, stands at the cell of that key
    /// and, a branch, has a child in the octree, or, a leaf, has none.
    pub open spec fn node_relation_ok(self, k: u64, n: Node) -> bool {
        &&& node_key(n.address) == k
        &&& match n.node_type {
            NodeType::Branch => exists|d: nat|
                d < 8 && (#[trigger] self.node_at(n.address.child_spec(d))) is Some,
            NodeType::Leaf => forall|d: nat|
                d < 8 ==> (#[trigger] self.node_at(n.address.child_spec(d))) is None,
        }
    }

    /// Whether every node of the octree meets `node_relation_ok`.
    pub open spec fn nodes_relation_holds(self) -> bool {
        forall|l: int, k: u64|
            0 <= l < self.levels.len() && #[trigger] self.levels[l].address_node_map@.contains_key(k)
                ==> self.node_relation_ok(k, self.levels[l].address_node_map@[k])
    }

    /// Whether every node of the octree stands at a cell above the deepest
    /// level, so that it has children to look for.
    pub open spec fn nodes_above_deepest(self) -> bool {
        forall|l: int, k: u64|
            0 <= l < self.levels.len() && #[trigger] self.levels[l].address_node_map@.contains_key(k)
                ==> self.levels[l].address_node_map@[k].address.level_spec() < 21
    }

    /// The number of nodes on the first `n` levels.
    pub open spec fn nodes_num_upto(levels: Seq<OctreeLevel>, n: int) -> nat
        decreases n,
    {
        if n <= 0 {
            0
        } else {
            Octree::nodes_num_upto(levels, n - 1) + levels[n - 1].address_node_map@.len()
        }
    }

    /// The number of nodes on all levels.
    pub open spec fn nodes_num(self) -> nat {
        Octree::nodes_num_upto(self.levels@, self.levels.len() as int)
    }

    proof fn lemma_nodes_num_mono(levels: Seq<OctreeLevel>, a: int, b: int)
        requires
            a <= b,
        ensures
            Octree::nodes_num_upto(levels, a) <= Octree::nodes_num_upto(levels, b),
        decreases b - a,
    {
        if a < b {
            Octree::lemma_nodes_num_mono(levels, a, b - 1);
        }
    }

    /// The number of nodes on all levels.
    pub fn get_nodes_num(&self) -> (r: usize)
        requires
            self.nodes_num() <= usize::MAX,
        ensures
            r == self.nodes_num(),
    {
        let mut num: usize = 0;
        let mut l: usize = 0;
        while l < self.levels.len()
            invariant
                l <= self.levels.len(),
                num == Octree::nodes_num_upto(self.levels@, l as int),
                self.nodes_num() <= usize::MAX,
            decreases self.levels.len() - l,
        {
            proof {
                Octree::lemma_nodes_num_mono(self.levels@, l as int + 1, self.levels.len() as int);
            }
            num = num + self.levels[l].address_node_map.len();
            l = l + 1;
        }
        num
    }

    /// Whether node `n` held under key `k` meets `node_relation_ok`.
    fn node_relation_check(octree: &Octree, k: u64, n: &Node) -> (r: bool)
        requires
            n.address.level_spec() < 21,
        ensures
            r == octree.node_relation_ok(k, *n),
    {
        if n.address.key() != k {
            return false;
        }
        let mut found = false;
        let mut d: usize = 0;
        while d < 8
            invariant
                d <= 8,
                n.address.level_spec() < 21,
                found <==> exists|e: nat|
                    e < d && (#[trigger] octree.node_at(n.address.child_spec(e))) is Some,
            decreases 8 - d,
        {
            let child = n.address.child(VertexIndex::from_repr(d).unwrap()).unwrap();
            let here = octree.get_node(&child).is_some();
            proof {
                if exists|e: nat| e < d + 1 && (#[trigger] octree.node_at(n.address.child_spec(e))) is Some {
                    let e = choose|e: nat| e < d + 1 && (#[trigger] octree.node_at(n.address.child_spec(e))) is Some;
                    if e < d {
                        assert(found);
                    } else {
                        assert(here);
                    }
                }
                if here {
                    assert(octree.node_at(n.address.child_spec(d as nat)) is Some);
                }
            }
            if here {
                found = true;
            }
            d = d + 1;
        }
        match n.node_type {
            NodeType::Branch => found,
            NodeType::Leaf => {
                proof {
                    if !found {
                        assert forall|e: nat| e < 8 implies (#[trigger] octree.node_at(n.address.child_spec(e))) is None by {
                            if octree.node_at(n.address.child_spec(e)) is Some {
                                assert(exists|e2: nat| e2 < 8 && (#[trigger] octree.node_at(n.address.child_spec(e2))) is Some);
                            }
                        }
                    }
                }
                !found
            },
        }
    }

    /// Whether every node stands under its own cell's key, every branch has a
    /// child in the octree and no leaf has one.
    pub fn check_nodes_relation(octree: &Octree) -> (r: bool)
        requires
            octree.nodes_above_deepest(),
        ensures
            r == octree.nodes_relation_holds(),
    {
        let mut l: usize = 0;
        while l < octree.levels.len()
            invariant
                octree.nodes_above_deepest(),
                l <= octree.levels.len(),
                forall|l2: int, k: u64|
                    0 <= l2 < l && #[trigger] octree.levels[l2].address_node_map@.contains_key(k)
                        ==> octree.node_relation_ok(k, octree.levels[l2].address_node_map@[k]),
            decreases octree.levels.len() - l,
        {
            let map = &octree.levels[l].address_node_map;
            let ghost mut seen: Seq<u64> = Seq::empty();
            for k in iter: map.keys()
                invariant
                    octree.nodes_above_deepest(),
                    l < octree.levels.len(),
                    *map == octree.levels[l as int].address_node_map,
                    iter.seq().unref().to_set() == map@.dom(),
                    seen == iter.seq().unref().take(iter.index() as int),
                    forall|x: u64|
                        #[trigger] seen.contains(x) ==> map@.contains_key(x) && octree.node_relation_ok(
                            x,
                            map@[x],
                        ),
                    iter.index() == iter.seq().len() ==> seen.to_set() == map@.dom(),
            {
                proof {
                    assert(iter.seq().unref().contains(*k));
                    assert(iter.seq().unref().to_set().contains(*k));
                    assert(iter.seq().unref().take(iter.index() as int + 1) =~= seen.push(*k));
                }
                let n = map.get(k).unwrap();
                if !Octree::node_relation_check(octree, *k, n) {
                    return false;
                }
                proof {
                    let seen_old = seen;
                    seen = seen.push(*k);
                    assert forall|x: u64| #[trigger] seen.contains(x) implies map@.contains_key(x)
                        && octree.node_relation_ok(x, map@[x]) by {
                        if x != *k {
                            let j = choose|j: int| 0 <= j < seen.len() && seen[j] == x;
                            assert(seen_old[j] == x);
                            assert(seen_old.contains(x));
                        }
                    }
                    assert(iter.index() + 1 == iter.seq().len() ==> seen =~= iter.seq().unref());
                    assert(iter.index() + 1 == iter.seq().len() ==> seen.to_set() =~= map@.dom());
                }
            }
            proof {
                assert forall|k: u64| #[trigger] octree.levels[l as int].address_node_map@.contains_key(k)
                    implies octree.node_relation_ok(k, octree.levels[l as int].address_node_map@[k]) by {
                    assert(seen.to_set().contains(k));
                    assert(seen.contains(k));
                }
            }
            l = l + 1;
        }
        true
    }
}


/// Whether every node of level `l` stands at the cell of its key, a cell of
/// level `l`.
pub open spec fn level_at_own_cells(m: Map<u64, Node>, l: int) -> bool {
    forall|k: u64|
        #[trigger] m.contains_key(k) ==> m[k].address.wf() && m[k].address.level_spec() == l
            && node_key(m[k].address) == k
}

impl Octree {
    /// Whether every node stands at the cell of its key, on that cell's level.
    pub open spec fn nodes_at_own_cells(self) -> bool {
        forall|l: int|
            0 <= l < self.levels.len() ==> level_at_own_cells(
                #[trigger] self.levels[l].address_node_map@,
                l,
            )
    }

    /// Whether every node of the octree is a leaf.
    pub open spec fn all_leaves(self) -> bool {
        forall|l: int, k: u64|
            0 <= l < self.levels.len() && #[trigger] self.levels[l].address_node_map@.contains_key(k)
                ==> self.levels[l].address_node_map@[k].node_type == NodeType::Leaf
    }
}

/// Building up keeps every node at its own cell, from level `l` down.
proof fn lemma_built_up_own_cells(before: Octree, after: Octree, l: int)
    requires
        Octree::built_up(before, after),
        before.levels.len() == ceil_log2(before.node_shape[0] as nat) + 1,
        before.nodes_at_own_cells(),
        0 <= l < after.levels.len(),
    ensures
        forall|l2: int|
            l <= l2 < after.levels.len() ==> level_at_own_cells(
                #[trigger] after.levels[l2].address_node_map@,
                l2,
            ),
    decreases after.levels.len() - l,
{
    let depth = ceil_log2(before.node_shape[0] as nat);
    assert(after.levels[l].address_node_map@ == if l < depth {
        with_parents(
            after.levels[l + 1].address_node_map@,
            before.levels[l].address_node_map@,
            after.levels[l + 1].address_node_map@.dom(),
        )
    } else {
        before.levels[l].address_node_map@
    });
    assert(level_at_own_cells(before.levels[l].address_node_map@, l));
    if l + 1 < after.levels.len() {
        lemma_built_up_own_cells(before, after, l + 1);
        let lower = after.levels[l + 1].address_node_map@;
        assert(level_at_own_cells(lower, l + 1));
        let m = after.levels[l].address_node_map@;
        assert forall|k: u64| #[trigger] m.contains_key(k) implies m[k].address.wf()
            && m[k].address.level_spec() == l && node_key(m[k].address) == k by {
            if parent_key_among(lower, lower.dom(), k) {
                let c = choose|c: MortonCode|
                    #![trigger node_key(c.parent_spec()), lower.dom().contains(node_key(c))]
                    c.wf() && c.level_spec() >= 1 && lower.dom().contains(node_key(c))
                        && lower.contains_key(node_key(c)) && node_key(c.parent_spec()) == k;
                let a = lower[node_key(c)].address;
                lemma_node_key_injective(a, c);
                c.lemma_parent_spec();
                let q = key_cell(k);
                assert(c.parent_spec().wf() && node_key(c.parent_spec()) == k);
                lemma_node_key_injective(q, c.parent_spec());
            }
        }
    }
}

/// Building the branches bottom up over an octree whose only nodes are
/// leaves on the deepest level, each at its own cell, with one level for
/// each depth of its leaf grid and the leaf level: the leaf level stays as
/// it was; each level above holds exactly the parents of the cells of the
/// level below, each a branch at its own cell; and every branch has a child
/// and no leaf has one.
pub proof fn lemma_build_bottom_up_from_leaves(before: Octree, after: Octree)
    requires
        Octree::built_up(before, after),
        before.levels.len() == ceil_log2(before.node_shape[0] as nat) + 1,
        before.nodes_at_own_cells(),
        before.all_leaves(),
        forall|l: int|
            0 <= l < ceil_log2(before.node_shape[0] as nat) ==> (
            #[trigger] before.levels[l]).address_node_map@.dom().is_empty(),
    ensures
        after.levels[ceil_log2(before.node_shape[0] as nat) as int].address_node_map@
            == before.levels[ceil_log2(before.node_shape[0] as nat) as int].address_node_map@,
        forall|i: int, k: u64|
            0 <= i < ceil_log2(before.node_shape[0] as nat) ==> (
            #[trigger] after.levels[i].address_node_map@.contains_key(k) <==> exists|c: MortonCode|
                #![trigger node_key(c.parent_spec()), after.levels[i + 1].address_node_map@.contains_key(node_key(c))]
                c.wf() && c.level_spec() == i + 1 && after.levels[i
                    + 1].address_node_map@.contains_key(node_key(c)) && node_key(c.parent_spec())
                    == k),
        forall|i: int, k: u64|
            0 <= i < ceil_log2(before.node_shape[0] as nat) && #[trigger] after.levels[i].address_node_map@.contains_key(k)
                ==> after.levels[i].address_node_map@[k].node_type == NodeType::Branch
                && after.levels[i].address_node_map@[k].address == key_cell(k) && node_key(
                key_cell(k),
            ) == k,
        after.nodes_at_own_cells(),
        after.nodes_relation_holds(),
{
    let depth = ceil_log2(before.node_shape[0] as nat);
    lemma_build_bottom_up_nodes_relation(before, after);
    lemma_built_up_own_cells(before, after, 0);
    assert(after.levels[depth as int].address_node_map@ == before.levels[depth as int].address_node_map@);
    assert forall|i: int, k: u64| 0 <= i < depth implies (
    #[trigger] after.levels[i].address_node_map@.contains_key(k) <==> exists|c: MortonCode|
        #![trigger node_key(c.parent_spec()), after.levels[i + 1].address_node_map@.contains_key(node_key(c))]
        c.wf() && c.level_spec() == i + 1 && after.levels[i + 1].address_node_map@.contains_key(
            node_key(c),
        ) && node_key(c.parent_spec()) == k) && (after.levels[i].address_node_map@.contains_key(k)
        ==> after.levels[i].address_node_map@[k].node_type == NodeType::Branch
        && after.levels[i].address_node_map@[k].address == key_cell(k) && node_key(key_cell(k))
        == k) by {
        let lower = after.levels[i + 1].address_node_map@;
        let upper = before.levels[i].address_node_map@;
        assert(after.levels[i].address_node_map@ == with_parents(lower, upper, lower.dom()));
        assert(!upper.contains_key(k)) by {
            assert(upper.dom().is_empty());
        }
        assert(level_at_own_cells(lower, i + 1));
        if after.levels[i].address_node_map@.contains_key(k) {
            let c = choose|c: MortonCode|
                #![trigger node_key(c.parent_spec()), lower.dom().contains(node_key(c))]
                c.wf() && c.level_spec() >= 1 && lower.dom().contains(node_key(c))
                    && lower.contains_key(node_key(c)) && node_key(c.parent_spec()) == k;
            lemma_node_key_injective(lower[node_key(c)].address, c);
            c.lemma_parent_spec();
            lemma_node_key_injective(key_cell(k), c.parent_spec());
            assert(c.level_spec() == i + 1);
        }
        if exists|c: MortonCode|
            #![trigger node_key(c.parent_spec()), lower.contains_key(node_key(c))]
            c.wf() && c.level_spec() == i + 1 && lower.contains_key(node_key(c)) && node_key(
                c.parent_spec(),
            ) == k {
            let c = choose|c: MortonCode|
                #![trigger node_key(c.parent_spec()), lower.contains_key(node_key(c))]
                c.wf() && c.level_spec() == i + 1 && lower.contains_key(node_key(c)) && node_key(
                    c.parent_spec(),
                ) == k;
            assert(lower.dom().contains(node_key(c)));
            assert(parent_key_among(lower, lower.dom(), k));
        }
    }
}

/// Building the branches bottom up over leaves that stand at their own
/// cells, in an octree with one level for each depth of its leaf grid and
/// the leaf level, gives an octree whose nodes stand at their own cells,
/// where every branch has a child and no leaf has one.
pub proof fn lemma_build_bottom_up_nodes_relation(before: Octree, after: Octree)
    requires
        Octree::built_up(before, after),
        before.levels.len() == ceil_log2(before.node_shape[0] as nat) + 1,
        before.nodes_at_own_cells(),
        before.all_leaves(),
    ensures
        after.nodes_at_own_cells(),
        after.nodes_relation_holds(),
{
    let depth = ceil_log2(before.node_shape[0] as nat);
    lemma_built_up_own_cells(before, after, 0);
    assert forall|l: int, k: u64|
        0 <= l < after.levels.len() && #[trigger] after.levels[l].address_node_map@.contains_key(k)
            implies after.node_relation_ok(k, after.levels[l].address_node_map@[k]) by {
        let m = after.levels[l].address_node_map@;
        assert(level_at_own_cells(m, l));
        assert(m == if l < depth {
            with_parents(
                after.levels[l + 1].address_node_map@,
                before.levels[l].address_node_map@,
                after.levels[l + 1].address_node_map@.dom(),
            )
        } else {
            before.levels[l].address_node_map@
        });
        let n = m[k];
        let a = n.address;
        if l < depth && parent_key_among(
            after.levels[l + 1].address_node_map@,
            after.levels[l + 1].address_node_map@.dom(),
            k,
        ) {
            let lower = after.levels[l + 1].address_node_map@;
            assert(level_at_own_cells(lower, l + 1));
            let c = choose|c: MortonCode|
                #![trigger node_key(c.parent_spec()), lower.dom().contains(node_key(c))]
                c.wf() && c.level_spec() >= 1 && lower.dom().contains(node_key(c))
                    && lower.contains_key(node_key(c)) && node_key(c.parent_spec()) == k;
            lemma_node_key_injective(lower[node_key(c)].address, c);
            c.lemma_parent_spec();
            lemma_node_key_injective(a, c.parent_spec());
            let d = c.code_spec() % 8;
            a.lemma_child_spec(c, d);
            assert(after.node_at(a.child_spec(d)) is Some);
        } else {
            assert(n == before.levels[l].address_node_map@[k]);
            assert(n.node_type == NodeType::Leaf);
            assert forall|d: nat| d < 8 implies (#[trigger] after.node_at(a.child_spec(d))) is None by {
                a.lemma_child_spec_level(d);
                let ch = a.child_spec(d);
                if after.node_at(ch) is Some {
                    let lower = after.levels[l + 1].address_node_map@;
                    assert(level_at_own_cells(lower, l + 1));
                    assert(lower.contains_key(node_key(ch)));
                    if l < 21 {
                        a.lemma_child_parent(d);
                        assert(parent_key_among(lower, lower.dom(), k));
                    } else {
                        assert(lower[node_key(ch)].address.wf());
                    }
                }
            }
        }
    }
}


/// The place in the flat sample array over the cube grid `s` (x fastest)
/// of corner `v` of voxel `(x, y, z)`.
pub open spec fn corner_sample_index(s: nat, x: nat, y: nat, z: nat, v: nat) -> nat {
    cell_index(s, x + vertex_bit(v, 0), y + vertex_bit(v, 1), z + vertex_bit(v, 2))
}

/// Whether corner `v` of voxel `(x, y, z)` lies inside the surface.
pub open spec fn corner_inside(s: nat, inside: Seq<bool>, x: nat, y: nat, z: nat, v: nat) -> bool {
    inside[corner_sample_index(s, x, y, z, v) as int]
}

/// Whether the corners of voxel `(x, y, z)` lie on both sides of the
/// surface.
pub open spec fn voxel_crosses(s: nat, inside: Seq<bool>, x: nat, y: nat, z: nat) -> bool {
    &&& exists|v: nat| v < 8 && #[trigger] corner_inside(s, inside, x, y, z, v)
    &&& exists|v: nat| v < 8 && !#[trigger] corner_inside(s, inside, x, y, z, v)
}

/// The material at corner `v` of voxel `(x, y, z)`: block inside the
/// surface, air outside.
pub open spec fn corner_mat(s: nat, inside: Seq<bool>, x: nat, y: nat, z: nat, v: nat) -> VoxelMaterialType {
    if corner_inside(s, inside, x, y, z, v) {
        VoxelMaterialType::Block
    } else {
        VoxelMaterialType::Air
    }
}

/// The leaf built for the voxel of cell `c`.
pub open spec fn voxel_leaf(s: nat, inside: Seq<bool>, c: MortonCode) -> Node {
    let x = c.coord(0);
    let y = c.coord(1);
    let z = c.coord(2);
    Node {
        node_type: NodeType::Leaf,
        address: c,
        vertices_mat_types: [
            corner_mat(s, inside, x, y, z, 0),
            corner_mat(s, inside, x, y, z, 1),
            corner_mat(s, inside, x, y, z, 2),
            corner_mat(s, inside, x, y, z, 3),
            corner_mat(s, inside, x, y, z, 4),
            corner_mat(s, inside, x, y, z, 5),
            corner_mat(s, inside, x, y, z, 6),
            corner_mat(s, inside, x, y, z, 7),
        ],
        vertices_side_types: [
            IsosurfaceSide::Outside,
            IsosurfaceSide::Outside,
            IsosurfaceSide::Outside,
            IsosurfaceSide::Outside,
            IsosurfaceSide::Outside,
            IsosurfaceSide::Outside,
            IsosurfaceSide::Outside,
            IsosurfaceSide::Outside,
        ],
    }
}

/// Whether cell `c` is a voxel of the grid `n` wide that comes before
/// `(x0, y0, z0)` in the order x, then y, then z.
pub open spec fn voxel_before(c: MortonCode, n: nat, x0: nat, y0: nat, z0: nat) -> bool {
    &&& c.coord(0) < n
    &&& c.coord(1) < n
    &&& c.coord(2) < n
    &&& (c.coord(0) < x0 || (c.coord(0) == x0 && (c.coord(1) < y0 || (c.coord(1) == y0 && c.coord(2)
        < z0))))
}

/// Whether cell `c` of level `depth` is a voxel before `(x0, y0, z0)` whose
/// corners cross the surface.
pub open spec fn leaf_voxel(
    s: nat,
    inside: Seq<bool>,
    n: nat,
    depth: nat,
    x0: nat,
    y0: nat,
    z0: nat,
    c: MortonCode,
) -> bool {
    &&& c.wf()
    &&& c.level_spec() == depth
    &&& voxel_before(c, n, x0, y0, z0)
    &&& voxel_crosses(s, inside, c.coord(0), c.coord(1), c.coord(2))
}

/// The leaves of the voxels before `(x0, y0, z0)` whose corners cross the
/// surface, by the keys of their cells.
pub open spec fn leaves_before(
    s: nat,
    inside: Seq<bool>,
    n: nat,
    depth: nat,
    x0: nat,
    y0: nat,
    z0: nat,
) -> Map<u64, Node> {
    Map::new(
        |k: u64|
            exists|c: MortonCode|
                #[trigger] leaf_voxel(s, inside, n, depth, x0, y0, z0, c) && node_key(c) == k,
        |k: u64| voxel_leaf(s, inside, key_cell(k)),
    )
}

/// Two bounds that put the same voxels first give the same leaves.
proof fn lemma_leaves_before_eq(
    s: nat,
    inside: Seq<bool>,
    n: nat,
    depth: nat,
    a: (nat, nat, nat),
    b: (nat, nat, nat),
)
    requires
        forall|c: MortonCode| voxel_before(c, n, a.0, a.1, a.2) == voxel_before(c, n, b.0, b.1, b.2),
    ensures
        leaves_before(s, inside, n, depth, a.0, a.1, a.2) == leaves_before(s, inside, n, depth, b.0, b.1, b.2),
{
    let ma = leaves_before(s, inside, n, depth, a.0, a.1, a.2);
    let mb = leaves_before(s, inside, n, depth, b.0, b.1, b.2);
    assert forall|k: u64| ma.contains_key(k) == mb.contains_key(k) by {
        if ma.contains_key(k) {
            let c = choose|c: MortonCode|
                #[trigger] leaf_voxel(s, inside, n, depth, a.0, a.1, a.2, c) && node_key(c) == k;
            assert(leaf_voxel(s, inside, n, depth, b.0, b.1, b.2, c));
        }
        if mb.contains_key(k) {
            let c = choose|c: MortonCode|
                #[trigger] leaf_voxel(s, inside, n, depth, b.0, b.1, b.2, c) && node_key(c) == k;
            assert(leaf_voxel(s, inside, n, depth, a.0, a.1, a.2, c));
        }
    }
    assert(ma =~= mb);
}

/// Taking the voxel `(x, y, z)` of cell `code` adds its leaf where its
/// corners cross the surface.
proof fn lemma_leaves_before_step(
    s: nat,
    inside: Seq<bool>,
    n: nat,
    depth: nat,
    x: nat,
    y: nat,
    z: nat,
    code: MortonCode,
)
    requires
        code.wf(),
        code.level_spec() == depth,
        code.coord(0) == x,
        code.coord(1) == y,
        code.coord(2) == z,
        x < n,
        y < n,
        z < n,
    ensures
        leaves_before(s, inside, n, depth, x, y, z + 1) == if voxel_crosses(s, inside, x, y, z) {
            leaves_before(s, inside, n, depth, x, y, z).insert(
                node_key(code),
                voxel_leaf(s, inside, code),
            )
        } else {
            leaves_before(s, inside, n, depth, x, y, z)
        },
{
    let m0 = leaves_before(s, inside, n, depth, x, y, z);
    let m1 = leaves_before(s, inside, n, depth, x, y, z + 1);
    let target = if voxel_crosses(s, inside, x, y, z) {
        m0.insert(node_key(code), voxel_leaf(s, inside, code))
    } else {
        m0
    };
    assert(key_cell(node_key(code)) == code) by {
        lemma_node_key_injective(key_cell(node_key(code)), code);
    }
    assert forall|k: u64| m1.contains_key(k) == target.contains_key(k) by {
        if m1.contains_key(k) {
            let c = choose|c: MortonCode|
                #[trigger] leaf_voxel(s, inside, n, depth, x, y, z + 1, c) && node_key(c) == k;
            if c.coord(0) == x && c.coord(1) == y && c.coord(2) == z {
                c.lemma_cell_at();
                code.lemma_cell_at();
            } else {
                assert(leaf_voxel(s, inside, n, depth, x, y, z, c));
            }
        }
        if m0.contains_key(k) {
            let c = choose|c: MortonCode|
                #[trigger] leaf_voxel(s, inside, n, depth, x, y, z, c) && node_key(c) == k;
            assert(leaf_voxel(s, inside, n, depth, x, y, z + 1, c));
        }
        if voxel_crosses(s, inside, x, y, z) && k == node_key(code) {
            assert(leaf_voxel(s, inside, n, depth, x, y, z + 1, code));
        }
    }
    assert(m1 =~= target);
}

/// Whether the corner `v` of voxel `(x, y, z)` lies inside the surface, from
/// the flat sample array over the cube grid `shape`.
fn corner_sample(shape: [u32; 3], sample_inside: &Vec<bool>, x: u32, y: u32, z: u32, v: usize) -> (r: bool)
    requires
        shape[0] == shape[1],
        shape[0] == shape[2],
        shape[0] * shape[1] * shape[2] <= u32::MAX,
        sample_inside.len() == shape[0] * shape[1] * shape[2],
        x + 1 < shape[0],
        y + 1 < shape[0],
        z + 1 < shape[0],
        v < 8,
    ensures
        r == corner_inside(shape[0] as nat, sample_inside@, x as nat, y as nat, z as nat, v as nat),
{
    let s = shape[0];
    proof {
        lemma_cube_side_bound(s as nat);
    }
    let off = VertexIndex::from_repr(v).unwrap().to_array();
    assert(off[0] <= 1 && off[1] <= 1 && off[2] <= 1) by {
        assert(off@[0] == vertex_bit(v as nat, 0) as u8);
        assert(off@[1] == vertex_bit(v as nat, 1) as u8);
        assert(off@[2] == vertex_bit(v as nat, 2) as u8);
    }
    let p = [x + off[0] as u32, y + off[1] as u32, z + off[2] as u32];
    let idx = shape_linearize(shape, p);
    proof {
        assert(off@[0] == vertex_bit(v as nat, 0) as u8);
        assert(off@[1] == vertex_bit(v as nat, 1) as u8);
        assert(off@[2] == vertex_bit(v as nat, 2) as u8);
        lemma_cell_index(s as nat, p[0] as nat, p[1] as nat, p[2] as nat);
        assert(idx == cell_index(s as nat, p[0] as nat, p[1] as nat, p[2] as nat));
    }
    sample_inside[idx as usize]
}


/// The leaves of all voxels of the grid `n` wide whose corners cross the
/// surface.
pub open spec fn voxel_leaves(s: nat, inside: Seq<bool>, n: nat, depth: nat) -> Map<u64, Node> {
    leaves_before(s, inside, n, depth, n, 0, 0)
}

/// A voxel crosses the surface exactly when some of its eight corners are
/// inside and some are not.
proof fn lemma_voxel_crosses(s: nat, inside: Seq<bool>, x: nat, y: nat, z: nat)
    ensures
        voxel_crosses(s, inside, x, y, z) == ((corner_inside(s, inside, x, y, z, 0) || corner_inside(
            s,
            inside,
            x,
            y,
            z,
            1,
        ) || corner_inside(s, inside, x, y, z, 2) || corner_inside(s, inside, x, y, z, 3)
            || corner_inside(s, inside, x, y, z, 4) || corner_inside(s, inside, x, y, z, 5)
            || corner_inside(s, inside, x, y, z, 6) || corner_inside(s, inside, x, y, z, 7)) && !(
        corner_inside(s, inside, x, y, z, 0) && corner_inside(s, inside, x, y, z, 1) && corner_inside(
            s,
            inside,
            x,
            y,
            z,
            2,
        ) && corner_inside(s, inside, x, y, z, 3) && corner_inside(s, inside, x, y, z, 4)
            && corner_inside(s, inside, x, y, z, 5) && corner_inside(s, inside, x, y, z, 6)
            && corner_inside(s, inside, x, y, z, 7))),
{
    if exists|v: nat| v < 8 && #[trigger] corner_inside(s, inside, x, y, z, v) {
        let v = choose|v: nat| v < 8 && #[trigger] corner_inside(s, inside, x, y, z, v);
        assert(v == 0 || v == 1 || v == 2 || v == 3 || v == 4 || v == 5 || v == 6 || v == 7);
    }
    if exists|v: nat| v < 8 && !#[trigger] corner_inside(s, inside, x, y, z, v) {
        let v = choose|v: nat| v < 8 && !#[trigger] corner_inside(s, inside, x, y, z, v);
        assert(v == 0 || v == 1 || v == 2 || v == 3 || v == 4 || v == 5 || v == 6 || v == 7);
    }
    assert(corner_inside(s, inside, x, y, z, 0) ==> exists|v: nat| v < 8 && #[trigger] corner_inside(s, inside, x, y, z, v));
    assert(corner_inside(s, inside, x, y, z, 1) ==> exists|v: nat| v < 8 && #[trigger] corner_inside(s, inside, x, y, z, v));
    assert(corner_inside(s, inside, x, y, z, 2) ==> exists|v: nat| v < 8 && #[trigger] corner_inside(s, inside, x, y, z, v));
    assert(corner_inside(s, inside, x, y, z, 3) ==> exists|v: nat| v < 8 && #[trigger] corner_inside(s, inside, x, y, z, v));
    assert(corner_inside(s, inside, x, y, z, 4) ==> exists|v: nat| v < 8 && #[trigger] corner_inside(s, inside, x, y, z, v));
    assert(corner_inside(s, inside, x, y, z, 5) ==> exists|v: nat| v < 8 && #[trigger] corner_inside(s, inside, x, y, z, v));
    assert(corner_inside(s, inside, x, y, z, 6) ==> exists|v: nat| v < 8 && #[trigger] corner_inside(s, inside, x, y, z, v));
    assert(corner_inside(s, inside, x, y, z, 7) ==> exists|v: nat| v < 8 && #[trigger] corner_inside(s, inside, x, y, z, v));
    assert(!corner_inside(s, inside, x, y, z, 0) ==> exists|v: nat| v < 8 && !#[trigger] corner_inside(s, inside, x, y, z, v));
    assert(!corner_inside(s, inside, x, y, z, 1) ==> exists|v: nat| v < 8 && !#[trigger] corner_inside(s, inside, x, y, z, v));
    assert(!corner_inside(s, inside, x, y, z, 2) ==> exists|v: nat| v < 8 && !#[trigger] corner_inside(s, inside, x, y, z, v));
    assert(!corner_inside(s, inside, x, y, z, 3) ==> exists|v: nat| v < 8 && !#[trigger] corner_inside(s, inside, x, y, z, v));
    assert(!corner_inside(s, inside, x, y, z, 4) ==> exists|v: nat| v < 8 && !#[trigger] corner_inside(s, inside, x, y, z, v));
    assert(!corner_inside(s, inside, x, y, z, 5) ==> exists|v: nat| v < 8 && !#[trigger] corner_inside(s, inside, x, y, z, v));
    assert(!corner_inside(s, inside, x, y, z, 6) ==> exists|v: nat| v < 8 && !#[trigger] corner_inside(s, inside, x, y, z, v));
    assert(!corner_inside(s, inside, x, y, z, 7) ==> exists|v: nat| v < 8 && !#[trigger] corner_inside(s, inside, x, y, z, v));
}

/// Block where the corner is inside the surface, air where it is outside.
fn mat_of(inside: bool) -> (r: VoxelMaterialType)
    ensures
        r == if inside {
            VoxelMaterialType::Block
        } else {
            VoxelMaterialType::Air
        },
{
    if inside {
        VoxelMaterialType::Block
    } else {
        VoxelMaterialType::Air
    }
}

impl Octree {
    /// The leaf of voxel `(x, y, z)` on level `depth` where its corners
    /// cross the surface.
    fn build_leaf_node(
        shape: [u32; 3],
        sample_inside: &Vec<bool>,
        x: u32,
        y: u32,
        z: u32,
        depth: u8,
    ) -> (r: Option<Node>)
        requires
            shape[0] == shape[1],
            shape[0] == shape[2],
            shape[0] * shape[1] * shape[2] <= u32::MAX,
            sample_inside.len() == shape[0] * shape[1] * shape[2],
            x + 1 < shape[0],
            y + 1 < shape[0],
            z + 1 < shape[0],
            depth <= 21,
            x < pow2(depth as nat),
            y < pow2(depth as nat),
            z < pow2(depth as nat),
        ensures
            r matches Some(node) ==> node.address.wf() && node.address.level_spec() == depth
                && node.address.coord(0) == x && node.address.coord(1) == y && node.address.coord(2)
                == z && node == voxel_leaf(shape[0] as nat, sample_inside@, node.address),
            r is Some <==> voxel_crosses(shape[0] as nat, sample_inside@, x as nat, y as nat, z as nat),
    {
        let s0 = corner_sample(shape, sample_inside, x, y, z, 0);
        let s1 = corner_sample(shape, sample_inside, x, y, z, 1);
        let s2 = corner_sample(shape, sample_inside, x, y, z, 2);
        let s3 = corner_sample(shape, sample_inside, x, y, z, 3);
        let s4 = corner_sample(shape, sample_inside, x, y, z, 4);
        let s5 = corner_sample(shape, sample_inside, x, y, z, 5);
        let s6 = corner_sample(shape, sample_inside, x, y, z, 6);
        let s7 = corner_sample(shape, sample_inside, x, y, z, 7);
        proof {
            lemma_voxel_crosses(shape[0] as nat, sample_inside@, x as nat, y as nat, z as nat);
        }
        if s0 && s1 && s2 && s3 && s4 && s5 && s6 && s7 {
            return None;
        }
        if !s0 && !s1 && !s2 && !s3 && !s4 && !s5 && !s6 && !s7 {
            return None;
        }
        let code = MortonCode::encode(UVec3::new(x, y, z), depth);
        let mut node = Node::new(NodeType::Leaf, code);
        node.vertices_mat_types = [
            mat_of(s0),
            mat_of(s1),
            mat_of(s2),
            mat_of(s3),
            mat_of(s4),
            mat_of(s5),
            mat_of(s6),
            mat_of(s7),
        ];
        proof {
            let leaf = voxel_leaf(shape[0] as nat, sample_inside@, code);
            assert(node.vertices_mat_types =~= leaf.vertices_mat_types);
            assert(node.vertices_side_types =~= leaf.vertices_side_types);
        }
        Some(node)
    }

    /// Puts on the deepest level a leaf for every voxel of the grid whose
    /// eight corners lie on both sides of the surface, block at its corners
    /// inside and air at those outside. `sample_inside` tells, for each
    /// point of the cube sample grid `shape` (x fastest), whether it lies
    /// inside the surface; the voxel grid of the octree is one narrower.
    pub fn build_leaf_nodes(shape: [u32; 3], octree: &mut Octree, sample_inside: &Vec<bool>)
        requires
            shape[0] == shape[1],
            shape[0] == shape[2],
            shape[0] >= 2,
            ceil_log2(shape[0] as nat) == ceil_log2((shape[0] - 1) as nat) + 1,
            shape[0] * shape[1] * shape[2] <= u32::MAX,
            sample_inside.len() == shape[0] * shape[1] * shape[2],
            old(octree).node_shape[0] == shape[0] - 1,
            old(octree).node_shape[1] == shape[0] - 1,
            old(octree).node_shape[2] == shape[0] - 1,
            old(octree).levels.len() > ceil_log2((shape[0] - 1) as nat),
        ensures
            final(octree).node_shape == old(octree).node_shape,
            final(octree).levels.len() == old(octree).levels.len(),
            forall|l: int|
                0 <= l < old(octree).levels.len() ==> #[trigger] final(octree).levels[l].address_node_map@
                    == if l == ceil_log2((shape[0] - 1) as nat) {
                    old(octree).levels[l].address_node_map@.union_prefer_right(
                        voxel_leaves(shape[0] as nat, sample_inside@, (shape[0] - 1) as nat, l as nat),
                    )
                } else {
                    old(octree).levels[l].address_node_map@
                },
    {
        let ghost sn = shape[0] as nat;
        let ghost inside = sample_inside@;
        let ghost old_levels = octree.levels@;
        let n = octree.node_shape[0];
        let depth = Octree::get_octree_depth(&octree.node_shape);
        proof {
            lemma_cube_side_bound(sn);
            lemma_ceil_log2_is_least(n as nat);
            lemma2_to64();
            lemma_ceil_log2_small(n as nat, 11);
        }
        let d = depth as usize;
        let ghost dn = depth as nat;
        let ghost start = old_levels[d as int].address_node_map@;
        assert(leaves_before(sn, inside, n as nat, dn, 0, 0, 0) =~= Map::<u64, Node>::empty());
        let mut x: u32 = 0;
        while x < n
            invariant
                sn == shape[0],
                inside == sample_inside@,
                shape[0] == shape[1],
                shape[0] == shape[2],
                shape[0] * shape[1] * shape[2] <= u32::MAX,
                sample_inside.len() == shape[0] * shape[1] * shape[2],
                n + 1 == shape[0],
                dn == depth,
                d == depth,
                depth == ceil_log2(n as nat),
                depth <= 21,
                pow2(depth as nat) >= n,
                x <= n,
                octree.node_shape == old(octree).node_shape,
                old_levels == old(octree).levels@,
                octree.levels.len() == old_levels.len(),
                d < octree.levels.len(),
                start == old_levels[d as int].address_node_map@,
                forall|l: int|
                    0 <= l < octree.levels.len() && l != d ==> #[trigger] octree.levels[l]
                        == old_levels[l],
                octree.levels[d as int].address_node_map@ == start.union_prefer_right(
                    leaves_before(sn, inside, n as nat, dn, x as nat, 0, 0),
                ),
            decreases n - x,
        {
            let mut y: u32 = 0;
            while y < n
                invariant
                    sn == shape[0],
                    inside == sample_inside@,
                    shape[0] == shape[1],
                    shape[0] == shape[2],
                    shape[0] * shape[1] * shape[2] <= u32::MAX,
                    sample_inside.len() == shape[0] * shape[1] * shape[2],
                    n + 1 == shape[0],
                    dn == depth,
                    d == depth,
                    depth <= 21,
                    pow2(depth as nat) >= n,
                    x < n,
                    y <= n,
                    octree.node_shape == old(octree).node_shape,
                    octree.levels.len() == old_levels.len(),
                    d < octree.levels.len(),
                    forall|l: int|
                        0 <= l < octree.levels.len() && l != d ==> #[trigger] octree.levels[l]
                            == old_levels[l],
                    octree.levels[d as int].address_node_map@ == start.union_prefer_right(
                        leaves_before(sn, inside, n as nat, dn, x as nat, y as nat, 0),
                    ),
                decreases n - y,
            {
                let mut z: u32 = 0;
                while z < n
                    invariant
                        sn == shape[0],
                        inside == sample_inside@,
                        shape[0] == shape[1],
                        shape[0] == shape[2],
                        shape[0] * shape[1] * shape[2] <= u32::MAX,
                        sample_inside.len() == shape[0] * shape[1] * shape[2],
                        n + 1 == shape[0],
                        dn == depth,
                        d == depth,
                        depth <= 21,
                        pow2(depth as nat) >= n,
                        x < n,
                        y < n,
                        z <= n,
                        octree.node_shape == old(octree).node_shape,
                        octree.levels.len() == old_levels.len(),
                        d < octree.levels.len(),
                        forall|l: int|
                            0 <= l < octree.levels.len() && l != d ==> #[trigger] octree.levels[l]
                                == old_levels[l],
                        octree.levels[d as int].address_node_map@ == start.union_prefer_right(
                            leaves_before(sn, inside, n as nat, dn, x as nat, y as nat, z as nat),
                        ),
                    decreases n - z,
                {
                    let ghost before = octree.levels[d as int].address_node_map@;
                    let leaf = Octree::build_leaf_node(shape, sample_inside, x, y, z, depth);
                    match leaf {
                        Some(node) => {
                            let key = node.address.key();
                            octree.levels[d].address_node_map.insert(key, node);
                            proof {
                                lemma_leaves_before_step(
                                    sn,
                                    inside,
                                    n as nat,
                                    dn,
                                    x as nat,
                                    y as nat,
                                    z as nat,
                                    node.address,
                                );
                                assert(octree.levels[d as int].address_node_map@ =~= start.union_prefer_right(
                                    leaves_before(sn, inside, n as nat, dn, x as nat, y as nat, (z + 1) as nat),
                                ));
                            }
                        },
                        None => {
                            proof {
                                let code = MortonCode::cell_at(dn, x as nat, y as nat, z as nat);
                                MortonCode::lemma_cell_at_wf(dn, x as nat, y as nat, z as nat);
                                lemma_leaves_before_step(
                                    sn,
                                    inside,
                                    n as nat,
                                    dn,
                                    x as nat,
                                    y as nat,
                                    z as nat,
                                    code,
                                );
                            }
                        },
                    }
                    z = z + 1;
                }
                proof {
                    lemma_leaves_before_eq(
                        sn,
                        inside,
                        n as nat,
                        dn,
                        (x as nat, y as nat, n as nat),
                        (x as nat, (y + 1) as nat, 0),
                    );
                }
                y = y + 1;
            }
            proof {
                lemma_leaves_before_eq(
                    sn,
                    inside,
                    n as nat,
                    dn,
                    (x as nat, n as nat, 0),
                    ((x + 1) as nat, 0, 0),
                );
            }
            x = x + 1;
        }
        assert forall|l: int| 0 <= l < old_levels.len() implies #[trigger] octree.levels[l].address_node_map@
            == if l == ceil_log2((shape[0] - 1) as nat) {
            old_levels[l].address_node_map@.union_prefer_right(
                voxel_leaves(shape[0] as nat, sample_inside@, (shape[0] - 1) as nat, l as nat),
            )
        } else {
            old_levels[l].address_node_map@
        } by {
            if l != d {
                assert(octree.levels[l] == old_levels[l]);
            }
        }
    }
}


impl Octree {
    /// Whether no level holds a node.
    pub open spec fn has_no_nodes(self) -> bool {
        forall|l: int|
            0 <= l < self.levels.len() ==> (#[trigger] self.levels[l]).address_node_map@.dom().is_empty()
    }

    /// Builds the octree over the cube sample grid `shape` (`sample_inside`
    /// telling which sample points lie inside the surface): one level for
    /// each depth of the voxel grid and one for its leaves (levels beyond
    /// are dropped, missing ones added empty), the leaves of the voxels that
    /// cross the surface on the deepest level, then the branches above them.
    pub fn build_bottom_up(octree: &mut Octree, sample_inside: &Vec<bool>, shape: [u32; 3])
        requires
            shape[0] == shape[1],
            shape[0] == shape[2],
            shape[0] >= 2,
            ceil_log2(shape[0] as nat) == ceil_log2((shape[0] - 1) as nat) + 1,
            shape[0] * shape[1] * shape[2] <= u32::MAX,
            sample_inside.len() == shape[0] * shape[1] * shape[2],
            old(octree).node_shape[0] == shape[0] - 1,
            old(octree).node_shape[1] == shape[0] - 1,
            old(octree).node_shape[2] == shape[0] - 1,
        ensures
            final(octree).node_shape == old(octree).node_shape,
            final(octree).levels.len() == ceil_log2((shape[0] - 1) as nat) + 1,
            exists|leaves: Octree|
                {
                    &&& Octree::built_up(leaves, *final(octree))
                    &&& leaves.node_shape == old(octree).node_shape
                    &&& leaves.levels.len() == ceil_log2((shape[0] - 1) as nat) + 1
                    &&& forall|l: int|
                        0 <= l < leaves.levels.len() ==> #[trigger] leaves.levels[l].address_node_map@
                            == {
                            let kept = if l < old(octree).levels.len() {
                                old(octree).levels[l].address_node_map@
                            } else {
                                Map::<u64, Node>::empty()
                            };
                            if l == ceil_log2((shape[0] - 1) as nat) {
                                kept.union_prefer_right(
                                    voxel_leaves(
                                        shape[0] as nat,
                                        sample_inside@,
                                        (shape[0] - 1) as nat,
                                        l as nat,
                                    ),
                                )
                            } else {
                                kept
                            }
                        }
                },
            old(octree).has_no_nodes() ==> final(octree).nodes_relation_holds()
                && final(octree).nodes_at_own_cells(),
    {
        let ghost old_levels = octree.levels@;
        let depth = Octree::get_octree_depth(&octree.node_shape);
        let target = depth as usize + 1;
        while octree.levels.len() > target
            invariant
                octree.levels.len() <= old_levels.len(),
                octree.levels.len() >= target || octree.levels.len() == old_levels.len(),
                forall|l: int| 0 <= l < octree.levels.len() ==> #[trigger] octree.levels[l] == old_levels[l],
                octree.node_shape == old(octree).node_shape,
                old_levels == old(octree).levels@,
            decreases octree.levels.len(),
        {
            octree.levels.pop();
        }
        let ghost kept_len = octree.levels.len();
        while octree.levels.len() < target
            invariant
                kept_len <= octree.levels.len() <= target,
                kept_len <= old_levels.len(),
                kept_len == target || kept_len == old_levels.len(),
                forall|l: int| 0 <= l < kept_len ==> #[trigger] octree.levels[l] == old_levels[l],
                forall|l: int|
                    kept_len <= l < octree.levels.len() ==> (#[trigger] octree.levels[l]).address_node_map@
                        == Map::<u64, Node>::empty(),
                octree.node_shape == old(octree).node_shape,
                old_levels == old(octree).levels@,
            decreases target - octree.levels.len(),
        {
            octree.levels.push(OctreeLevel::default());
        }
        Octree::build_leaf_nodes(shape, octree, sample_inside);
        let ghost leaves = *octree;
        Octree::build_bottom_up_from_leaf_nodes(octree);
        proof {
            let dn = depth as nat;
            assert forall|l: int| 0 <= l < leaves.levels.len() implies #[trigger] leaves.levels[l].address_node_map@
                == {
                let kept = if l < old_levels.len() {
                    old_levels[l].address_node_map@
                } else {
                    Map::<u64, Node>::empty()
                };
                if l == dn {
                    kept.union_prefer_right(
                        voxel_leaves(
                            shape[0] as nat,
                            sample_inside@,
                            (shape[0] - 1) as nat,
                            l as nat,
                        ),
                    )
                } else {
                    kept
                }
            } by {
                if l < kept_len {
                    assert(l < old_levels.len());
                }
            }
            if old(octree).has_no_nodes() {
                let sn = shape[0] as nat;
                let n = (shape[0] - 1) as nat;
                assert forall|l: int| 0 <= l < kept_len implies (#[trigger] old_levels[l]).address_node_map@
                    == Map::<u64, Node>::empty() by {
                    assert(old(octree).levels[l].address_node_map@.dom().is_empty());
                    assert(old_levels[l].address_node_map@.dom() =~= Set::<u64>::empty());
                    assert(old_levels[l].address_node_map@ =~= Map::<u64, Node>::empty());
                }
                assert forall|l: int| 0 <= l < leaves.levels.len() implies level_at_own_cells(
                    #[trigger] leaves.levels[l].address_node_map@,
                    l,
                ) && (forall|k: u64|
                    leaves.levels[l].address_node_map@.contains_key(k)
                        ==> leaves.levels[l].address_node_map@[k].node_type == NodeType::Leaf) by {
                    let m = leaves.levels[l].address_node_map@;
                    if l < kept_len {
                        assert(leaves.levels[l].address_node_map@ == (if l == dn {
                            Map::<u64, Node>::empty().union_prefer_right(voxel_leaves(sn, sample_inside@, n, l as nat))
                        } else {
                            Map::<u64, Node>::empty()
                        }));
                    }
                    assert forall|k: u64| #[trigger] m.contains_key(k) implies m[k].address.wf()
                        && m[k].address.level_spec() == l && node_key(m[k].address) == k
                        && m[k].node_type == NodeType::Leaf by {
                        let vl = voxel_leaves(sn, sample_inside@, n, l as nat);
                        assert(l == dn);
                        assert(vl.contains_key(k));
                        let c = choose|c: MortonCode|
                            #[trigger] leaf_voxel(sn, sample_inside@, n, l as nat, n, 0, 0, c) && node_key(c) == k;
                        lemma_node_key_injective(key_cell(k), c);
                        assert(m[k] == voxel_leaf(sn, sample_inside@, key_cell(k)));
                    }
                }
                assert(leaves.nodes_at_own_cells());
                assert(leaves.all_leaves()) by {
                    assert forall|l: int, k: u64|
                        0 <= l < leaves.levels.len() && #[trigger] leaves.levels[l].address_node_map@.contains_key(k)
                            implies leaves.levels[l].address_node_map@[k].node_type == NodeType::Leaf by {
                        assert(level_at_own_cells(leaves.levels[l].address_node_map@, l));
                    }
                }
                lemma_build_bottom_up_nodes_relation(leaves, *octree);
            }
        }
    }
}

} // verus!

//! The leaf cells of the terrain's LOD octree, level by level.
//!
//! Each level keeps two sets of leaf cells, the current one and the one of
//! the previous update; a swap makes the current set the previous one and
//! starts an empty current set. A cell is held by its key (`node_key`), and a
//! cell is in the octree when the current set of its own level holds it.
//!
//! An update rebuilds the leaves from the root down: a cell is divided where
//! it lies above the octree's depth and a divide test (the distance to the
//! observers) passes it, and is a leaf otherwise.
use std::collections::HashSet;
use vstd::prelude::*;
use crate::morton_code::{MortonCode, node_key, MAX_LEVEL};
use crate::tables::VertexIndex;

verus! {

broadcast use vstd::std_specs::hash::group_hash_axioms;

/// The leaf cells of one level: two sets of keys, `b_is_new` telling which
/// one is current.
pub struct TerrainLodOctreeLevel {
    pub leaf_nodes_a: HashSet<u64>,
    pub leaf_nodes_b: HashSet<u64>,
    pub b_is_new: bool,
}

impl TerrainLodOctreeLevel {
    /// The keys of the current leaf cells.
    pub open spec fn current_spec(self) -> Set<u64> {
        if self.b_is_new {
            self.leaf_nodes_b@
        } else {
            self.leaf_nodes_a@
        }
    }

    /// The keys of the leaf cells of the previous update.
    pub open spec fn previous_spec(self) -> Set<u64> {
        if self.b_is_new {
            self.leaf_nodes_a@
        } else {
            self.leaf_nodes_b@
        }
    }

    /// Starts a new update: the current cells become the previous ones and
    /// the new current set is empty.
    pub fn swap(&mut self)
        ensures
            final(self).b_is_new == !old(self).b_is_new,
            final(self).current_spec() == Set::<u64>::empty(),
            final(self).previous_spec() == old(self).current_spec(),
    {
        self.b_is_new = !self.b_is_new;
        if self.b_is_new {
            self.leaf_nodes_b.clear();
        } else {
            self.leaf_nodes_a.clear();
        }
    }

    /// The current leaf cells.
    pub fn get_current(&self) -> (r: &HashSet<u64>)
        ensures
            r@ == self.current_spec(),
    {
        if self.b_is_new {
            &self.leaf_nodes_b
        } else {
            &self.leaf_nodes_a
        }
    }

    /// The current leaf cells, to change in place.
    pub fn get_current_mut(&mut self) -> (r: &mut HashSet<u64>)
        ensures
            *r == if old(self).b_is_new {
                old(self).leaf_nodes_b
            } else {
                old(self).leaf_nodes_a
            },
            *final(self) == if old(self).b_is_new {
                (TerrainLodOctreeLevel {
                    leaf_nodes_a: old(self).leaf_nodes_a,
                    leaf_nodes_b: *final(r),
                    b_is_new: true,
                })
            } else {
                (TerrainLodOctreeLevel {
                    leaf_nodes_a: *final(r),
                    leaf_nodes_b: old(self).leaf_nodes_b,
                    b_is_new: false,
                })
            },
    {
        if self.b_is_new {
            &mut self.leaf_nodes_b
        } else {
            &mut self.leaf_nodes_a
        }
    }

    /// Adds a leaf cell to the current set.
    pub fn insert_leaf_node(&mut self, node: MortonCode)
        ensures
            final(self).b_is_new == old(self).b_is_new,
            final(self).current_spec() == old(self).current_spec().insert(node_key(node)),
            final(self).previous_spec() == old(self).previous_spec(),
    {
        let key = node.key();
        if self.b_is_new {
            self.leaf_nodes_b.insert(key);
        } else {
            self.leaf_nodes_a.insert(key);
        }
    }

    /// The keys of the cells in `from` and not in `other`, each once.
    fn difference(from: &HashSet<u64>, other: &HashSet<u64>) -> (r: Vec<u64>)
        ensures
            r@.to_set() == from@.difference(other@),
            r@.no_duplicates(),
    {
        let mut out: Vec<u64> = Vec::new();
        let ghost mut seen: Seq<u64> = Seq::empty();
        for k in iter: from.iter()
            invariant
                iter.seq().unref().to_set() == from@,
                iter.seq().unref().no_duplicates(),
                seen == iter.seq().unref().take(iter.index() as int),
                out@.no_duplicates(),
                forall|x: u64| #[trigger] out@.contains(x) <==> seen.contains(x) && !other@.contains(x),
                iter.index() == iter.seq().len() ==> out@.to_set() == from@.difference(other@),
        {
            proof {
                assert(iter.seq().unref().take(iter.index() as int + 1) =~= seen.push(*k));
                assert(!seen.contains(*k)) by {
                    if seen.contains(*k) {
                        let j = choose|j: int| 0 <= j < seen.len() && seen[j] == *k;
                        assert(iter.seq().unref()[j] == iter.seq().unref()[iter.index() as int]);
                    }
                }
            }
            let ghost seen_old = seen;
            let ghost out_old = out@;
            if !other.contains(k) {
                out.push(*k);
                proof {
                    assert forall|a: int, b: int| 0 <= a < b < out@.len() implies out@[a] != out@[b] by {
                        if b == out@.len() - 1 {
                            assert(out_old.contains(out@[a]));
                        } else {
                            assert(out_old[a] != out_old[b]);
                        }
                    }
                }
            }
            proof {
                seen = seen.push(*k);
            }
            proof {
                assert forall|x: u64| #[trigger] out@.contains(x) <==> seen.contains(x) && !other@.contains(x) by {
                    if out@.contains(x) {
                        let j = choose|j: int| 0 <= j < out@.len() && out@[j] == x;
                        if j < out_old.len() {
                            assert(out_old[j] == x);
                            assert(out_old.contains(x));
                            let i = choose|i: int| 0 <= i < seen_old.len() && seen_old[i] == x;
                            assert(seen[i] == x);
                        } else {
                            assert(seen[seen.len() - 1] == x);
                        }
                    }
                    if seen.contains(x) && !other@.contains(x) {
                        let i = choose|i: int| 0 <= i < seen.len() && seen[i] == x;
                        if i < seen_old.len() {
                            assert(seen_old[i] == x);
                            assert(seen_old.contains(x));
                            assert(out_old.contains(x));
                            let j = choose|j: int| 0 <= j < out_old.len() && out_old[j] == x;
                            assert(out@[j] == x);
                        } else {
                            assert(x == *k);
                            assert(out@[out@.len() - 1] == x);
                        }
                    }
                }
                assert(iter.index() + 1 == iter.seq().len() ==> seen =~= iter.seq().unref());
                assert forall|x: u64| iter.index() + 1 == iter.seq().len() implies out@.to_set().contains(x)
                    == from@.difference(other@).contains(x) by {
                    if from@.contains(x) {
                        assert(iter.seq().unref().to_set().contains(x));
                    }
                    if out@.contains(x) {
                        assert(seen.contains(x));
                        assert(iter.seq().unref().contains(x));
                        assert(iter.seq().unref().to_set().contains(x));
                    }
                }
                assert(iter.index() + 1 == iter.seq().len() ==> out@.to_set() =~= from@.difference(
                    other@,
                ));
            }
        }
        out
    }

    /// The keys of the cells added since the previous update.
    pub fn get_added_nodes(&self) -> (r: Vec<u64>)
        ensures
            r@.to_set() == self.current_spec().difference(self.previous_spec()),
            r@.no_duplicates(),
    {
        if self.b_is_new {
            Self::difference(&self.leaf_nodes_b, &self.leaf_nodes_a)
        } else {
            Self::difference(&self.leaf_nodes_a, &self.leaf_nodes_b)
        }
    }

    /// The keys of the cells removed since the previous update.
    pub fn get_removed_nodes(&self) -> (r: Vec<u64>)
        ensures
            r@.to_set() == self.previous_spec().difference(self.current_spec()),
            r@.no_duplicates(),
    {
        if self.b_is_new {
            Self::difference(&self.leaf_nodes_a, &self.leaf_nodes_b)
        } else {
            Self::difference(&self.leaf_nodes_b, &self.leaf_nodes_a)
        }
    }

    /// The current leaf cell `code`, if the level holds it.
    pub fn find_leaf_node(&self, code: &MortonCode) -> (r: Option<MortonCode>)
        ensures
            r == if self.current_spec().contains(node_key(*code)) {
                Some(*code)
            } else {
                None
            },
    {
        let key = code.key();
        if self.get_current().contains(&key) {
            Some(*code)
        } else {
            None
        }
    }

    /// Takes a leaf cell out of the current set.
    pub fn remove_leaf_node(&mut self, node: &MortonCode)
        ensures
            final(self).b_is_new == old(self).b_is_new,
            final(self).current_spec() == old(self).current_spec().remove(node_key(*node)),
            final(self).previous_spec() == old(self).previous_spec(),
    {
        let key = node.key();
        if self.b_is_new {
            self.leaf_nodes_b.remove(&key);
        } else {
            self.leaf_nodes_a.remove(&key);
        }
    }
}

/// The cells of the previous update without the removed ones, with the
/// added ones, are the current cells: applying `get_removed_nodes` and then
/// `get_added_nodes` to the previous leaves gives the current leaves.
pub proof fn lemma_added_removed_make_current(level: TerrainLodOctreeLevel)
    ensures
        level.previous_spec().difference(level.previous_spec().difference(level.current_spec())).union(
            level.current_spec().difference(level.previous_spec()),
        ) == level.current_spec(),
{
    assert(level.previous_spec().difference(level.previous_spec().difference(level.current_spec())).union(
        level.current_spec().difference(level.previous_spec()),
    ) =~= level.current_spec());
}

impl Default for TerrainLodOctreeLevel {
    fn default() -> (r: TerrainLodOctreeLevel)
        ensures
            !r.b_is_new,
            r.current_spec() == Set::<u64>::empty(),
            r.previous_spec() == Set::<u64>::empty(),
    {
        TerrainLodOctreeLevel {
            leaf_nodes_a: HashSet::new(),
            leaf_nodes_b: HashSet::new(),
            b_is_new: false,
        }
    }
}

/// The levels of the LOD octree, the root level first.
pub struct TerrainLodOctree {
    pub octree_levels: Vec<TerrainLodOctreeLevel>,
}

impl TerrainLodOctree {
    /// Whether the current leaf cells of `c`'s level hold `c`.
    pub open spec fn has_node(self, c: MortonCode) -> bool {
        &&& c.level_spec() < self.octree_levels.len()
        &&& self.octree_levels[c.level_spec() as int].current_spec().contains(node_key(c))
    }

    /// The leaf cell `code`, if the octree holds it.
    pub fn get_node(&self, code: &MortonCode) -> (r: Option<MortonCode>)
        ensures
            r == if self.has_node(*code) {
                Some(*code)
            } else {
                None
            },
    {
        let level = code.level() as usize;
        if level >= self.octree_levels.len() {
            return None;
        }
        self.octree_levels[level].find_leaf_node(code)
    }
}

impl Default for TerrainLodOctree {
    fn default() -> (r: TerrainLodOctree)
        ensures
            r.octree_levels.len() == 0,
    {
        TerrainLodOctree { octree_levels: Vec::new() }
    }
}



/// Whether an update of depth `depth` divides `c`: `c` lies above that depth
/// and the divide test passes it.
pub open spec fn divides<F: Fn(MortonCode) -> bool>(can_divide: F, depth: nat, c: MortonCode) -> bool {
    c.level_spec() < depth && call_ensures(can_divide, (c,), true)
}

/// Whether the update divides the `n` nearest ancestors of `c`.
pub open spec fn ancestors_divided<F: Fn(MortonCode) -> bool>(
    can_divide: F,
    depth: nat,
    c: MortonCode,
    n: nat,
) -> bool
    decreases n,
{
    if n == 0 {
        true
    } else {
        divides(can_divide, depth, c.parent_spec()) && ancestors_divided(
            can_divide,
            depth,
            c.parent_spec(),
            (n - 1) as nat,
        )
    }
}

/// Whether the update divides `c` and all its ancestors.
pub open spec fn divided_cell<F: Fn(MortonCode) -> bool>(can_divide: F, depth: nat, c: MortonCode) -> bool {
    &&& c.wf()
    &&& ancestors_divided(can_divide, depth, c, c.level_spec())
    &&& divides(can_divide, depth, c)
}

/// Whether `c` is a leaf of the updated octree: all its ancestors are
/// divided and it is not.
pub open spec fn lod_leaf<F: Fn(MortonCode) -> bool>(can_divide: F, depth: nat, c: MortonCode) -> bool {
    &&& c.wf()
    &&& c.level_spec() <= depth
    &&& ancestors_divided(can_divide, depth, c, c.level_spec())
    &&& !divides(can_divide, depth, c)
}

/// The keys of the leaves of level `l` of the updated octree.
pub open spec fn lod_leaf_keys<F: Fn(MortonCode) -> bool>(can_divide: F, depth: nat, l: nat) -> Set<u64> {
    Set::new(
        |k: u64|
            exists|c: MortonCode|
                #[trigger] lod_leaf(can_divide, depth, c) && c.level_spec() == l && node_key(c) == k,
    )
}

/// Whether the divide test answers each cell one way.
pub open spec fn answers_once<F: Fn(MortonCode) -> bool>(can_divide: F) -> bool {
    forall|c: MortonCode, a: bool, b: bool|
        #![trigger call_ensures(can_divide, (c,), a), call_ensures(can_divide, (c,), b)]
        call_ensures(can_divide, (c,), a) && call_ensures(can_divide, (c,), b) ==> a == b
}

/// Whether `c` is a child of `p`.
pub open spec fn child_of(p: MortonCode, c: MortonCode) -> bool {
    &&& c.wf()
    &&& c.level_spec() == p.level_spec() + 1
    &&& c.parent_spec() == p
}

/// The keys of the children of a cell among `parents` that the update does
/// not divide.
pub open spec fn undivided_children_keys<F: Fn(MortonCode) -> bool>(
    can_divide: F,
    depth: nat,
    parents: Seq<MortonCode>,
    digits: nat,
) -> Set<u64> {
    Set::new(
        |k: u64|
            exists|p: MortonCode, c: MortonCode|
                #![trigger parents.contains(p), child_of(p, c)]
                parents.contains(p) && child_of(p, c) && c.code_spec() % 8 < digits && !divides(
                    can_divide,
                    depth,
                    c,
                ) && node_key(c) == k,
    )
}

/// A cell of a level below the root is the child of its parent at its last
/// digit.
proof fn lemma_child_of_parent(c: MortonCode)
    requires
        c.wf(),
        c.level_spec() >= 1,
    ensures
        child_of(c.parent_spec(), c),
        c == c.parent_spec().child_spec(c.code_spec() % 8),
        c.parent_spec().level_spec() < 21,
{
    c.lemma_parent_spec();
    c.parent_spec().lemma_child_spec(c, c.code_spec() % 8);
}

/// Adds to `level` the children of `node` that the update does not divide,
/// and to `next` those it divides.
fn divide_children<F: Fn(MortonCode) -> bool>(
    level: &mut TerrainLodOctreeLevel,
    next: &mut Vec<MortonCode>,
    node: MortonCode,
    max_level: u8,
    can_divide: &F,
)
    requires
        node.wf(),
        node.level_spec() < max_level,
        max_level <= MAX_LEVEL,
        forall|c: MortonCode| call_requires(*can_divide, (c,)),
        answers_once(*can_divide),
    ensures
        final(level).b_is_new == old(level).b_is_new,
        final(level).previous_spec() == old(level).previous_spec(),
        final(level).current_spec() == old(level).current_spec().union(
            undivided_children_keys(*can_divide, max_level as nat, seq![node], 8),
        ),
        forall|c: MortonCode|
            #[trigger] final(next)@.contains(c) <==> old(next)@.contains(c) || (child_of(node, c)
                && divides(*can_divide, max_level as nat, c)),
{
    let ghost f = *can_divide;
    let ghost depth = max_level as nat;
    let ghost start = level.current_spec();
    let ghost next_start = next@;
    let mut d: usize = 0;
    while d < 8
        invariant
            node.wf(),
            node.level_spec() < max_level,
            max_level <= MAX_LEVEL,
            f == *can_divide,
            depth == max_level as nat,
            forall|c: MortonCode| call_requires(*can_divide, (c,)),
            answers_once(*can_divide),
            d <= 8,
            level.b_is_new == old(level).b_is_new,
            level.previous_spec() == old(level).previous_spec(),
            start == old(level).current_spec(),
            next_start == old(next)@,
            level.current_spec() == start.union(undivided_children_keys(f, depth, seq![node], d as nat)),
            forall|c: MortonCode|
                #[trigger] next@.contains(c) <==> next_start.contains(c) || (child_of(node, c)
                    && c.code_spec() % 8 < d && divides(f, depth, c)),
        decreases 8 - d,
    {
        let sub = VertexIndex::from_repr(d).unwrap();
        let child = node.child(sub).unwrap();
        proof {
            node.lemma_child_parent(d as nat);
            assert(child_of(node, child));
            assert(seq![node].contains(node)) by {
                assert(seq![node][0] == node);
            }
        }
        let level_below = child.level() < max_level;
        let divide = if level_below {
            can_divide(child)
        } else {
            false
        };
        proof {
            if !divide && level_below {
                assert(!call_ensures(f, (child,), true));
            }
            assert(divide == divides(f, depth, child));
        }
        let ghost next_before = next@;
        let ghost cur_before = level.current_spec();
        if divide {
            next.push(child);
        } else {
            level.insert_leaf_node(child);
        }
        proof {
            assert forall|c: MortonCode| #[trigger] next@.contains(c) <==> next_start.contains(c) || (
            child_of(node, c) && c.code_spec() % 8 < d + 1 && divides(f, depth, c)) by {
                if child_of(node, c) {
                    lemma_child_of_parent(c);
                }
                if next@.contains(c) && !next_before.contains(c) {
                    assert(divide);
                    let j = choose|j: int| 0 <= j < next@.len() && next@[j] == c;
                    if j < next_before.len() {
                        assert(next_before[j] == c);
                        assert(next_before.contains(c));
                    }
                }
                if divide && next_before.contains(c) {
                    let j = choose|j: int| 0 <= j < next_before.len() && next_before[j] == c;
                    assert(next@[j] == c);
                }
                if child_of(node, c) && c.code_spec() % 8 == d && divides(f, depth, c) {
                    assert(c == child);
                    assert(next@[next@.len() - 1] == c);
                }
            }
            assert forall|k: u64| #[trigger] level.current_spec().contains(k) == start.union(
                undivided_children_keys(f, depth, seq![node], (d + 1) as nat),
            ).contains(k) by {
                let s1 = undivided_children_keys(f, depth, seq![node], d as nat);
                let s2 = undivided_children_keys(f, depth, seq![node], (d + 1) as nat);
                if s2.contains(k) && !s1.contains(k) && !start.contains(k) {
                    let (p, c) = choose|p: MortonCode, c: MortonCode|
                        #![trigger seq![node].contains(p), child_of(p, c)]
                        seq![node].contains(p) && child_of(p, c) && c.code_spec() % 8 < d + 1 && !divides(
                            f,
                            depth,
                            c,
                        ) && node_key(c) == k;
                    assert(p == node) by {
                        let j = choose|j: int| 0 <= j < 1 && seq![node][j] == p;
                    }
                    lemma_child_of_parent(c);
                    assert(c == child);
                }
                if s1.contains(k) {
                    let (p, c) = choose|p: MortonCode, c: MortonCode|
                        #![trigger seq![node].contains(p), child_of(p, c)]
                        seq![node].contains(p) && child_of(p, c) && c.code_spec() % 8 < d && !divides(
                            f,
                            depth,
                            c,
                        ) && node_key(c) == k;
                    assert(s2.contains(k));
                }
                if !divide && k == node_key(child) {
                    assert(s2.contains(k));
                }
            }
            assert(level.current_spec() =~= start.union(
                undivided_children_keys(f, depth, seq![node], (d + 1) as nat),
            ));
        }
        d = d + 1;
    }
}


/// The ancestor of `c` `m` levels up.
pub open spec fn ancestor_up(c: MortonCode, m: nat) -> MortonCode
    decreases m,
{
    if m == 0 {
        c
    } else {
        ancestor_up(c.parent_spec(), (m - 1) as nat)
    }
}

/// Of a cell whose ancestors are all divided, every ancestor is a divided
/// cell `m` levels up.
pub(crate) proof fn lemma_ancestors_divided_up<F: Fn(MortonCode) -> bool>(
    can_divide: F,
    depth: nat,
    c: MortonCode,
    m: nat,
)
    requires
        c.wf(),
        ancestors_divided(can_divide, depth, c, c.level_spec()),
        1 <= m <= c.level_spec(),
    ensures
        divided_cell(can_divide, depth, ancestor_up(c, m)),
        ancestor_up(c, m).level_spec() == c.level_spec() - m,
    decreases m,
{
    c.lemma_parent_spec();
    let p = c.parent_spec();
    assert(p.level_spec() == (c.level_spec() - 1) as nat);
    assert(ancestors_divided(can_divide, depth, c, c.level_spec()) == (divides(can_divide, depth, p)
        && ancestors_divided(can_divide, depth, p, (c.level_spec() - 1) as nat)));
    assert(divided_cell(can_divide, depth, p));
    assert(ancestor_up(c, m) == ancestor_up(p, (m - 1) as nat));
    if m > 1 {
        lemma_ancestors_divided_up(can_divide, depth, p, (m - 1) as nat);
    } else {
        assert(ancestor_up(p, 0) == p);
    }
}

/// The leaves of a level below the root are the children of the divided
/// cells of the level above that the update does not divide.
proof fn lemma_leaf_keys_below<F: Fn(MortonCode) -> bool>(
    can_divide: F,
    depth: nat,
    parents: Seq<MortonCode>,
    l: nat,
)
    requires
        1 <= l <= depth,
        forall|c: MortonCode|
            #[trigger] parents.contains(c) <==> c.level_spec() == l - 1 && divided_cell(
                can_divide,
                depth,
                c,
            ),
    ensures
        undivided_children_keys(can_divide, depth, parents, 8) == lod_leaf_keys(can_divide, depth, l),
{
    let s1 = undivided_children_keys(can_divide, depth, parents, 8);
    let s2 = lod_leaf_keys(can_divide, depth, l);
    assert forall|k: u64| s1.contains(k) <==> s2.contains(k) by {
        if s1.contains(k) {
            let (p, c) = choose|p: MortonCode, c: MortonCode|
                #![trigger parents.contains(p), child_of(p, c)]
                parents.contains(p) && child_of(p, c) && c.code_spec() % 8 < 8 && !divides(
                    can_divide,
                    depth,
                    c,
                ) && node_key(c) == k;
            assert(lod_leaf(can_divide, depth, c));
        }
        if s2.contains(k) {
            let c = choose|c: MortonCode|
                #[trigger] lod_leaf(can_divide, depth, c) && c.level_spec() == l && node_key(c) == k;
            lemma_child_of_parent(c);
            c.lemma_parent_spec();
            let p = c.parent_spec();
            assert(parents.contains(p));
            assert(c.code_spec() % 8 < 8);
        }
    }
    assert(s1 =~= s2);
}

/// Rebuilds the leaf cells of the LOD octree from the root down, the
/// octree growing to `lod_octree_depth + 1` levels where it has fewer: every
/// level first makes its current cells the previous ones; then, where there
/// are observers, each cell whose ancestors are all divided is divided (its
/// eight children go to the next level) when it lies above
/// `lod_octree_depth` and `can_divide` passes it, and is a leaf of its level
/// otherwise.
pub fn update_terrain_lod_octree<F: Fn(MortonCode) -> bool>(
    terrain_lod_octree: &mut TerrainLodOctree,
    lod_octree_depth: u8,
    has_observers: bool,
    can_divide: F,
)
    requires
        lod_octree_depth <= MAX_LEVEL,
        forall|c: MortonCode| call_requires(can_divide, (c,)),
        answers_once(can_divide),
    ensures
        final(terrain_lod_octree).octree_levels.len() == if old(
            terrain_lod_octree,
        ).octree_levels.len() <= lod_octree_depth {
            lod_octree_depth + 1
        } else {
            old(terrain_lod_octree).octree_levels.len() as int
        },
        forall|l: int|
            0 <= l < final(terrain_lod_octree).octree_levels.len() ==> (
            #[trigger] final(terrain_lod_octree).octree_levels[l]).previous_spec() == if l < old(
                terrain_lod_octree,
            ).octree_levels.len() {
                old(terrain_lod_octree).octree_levels[l].current_spec()
            } else {
                Set::<u64>::empty()
            },
        forall|l: int|
            0 <= l < final(terrain_lod_octree).octree_levels.len() ==> (
            #[trigger] final(terrain_lod_octree).octree_levels[l]).current_spec() == if has_observers {
                lod_leaf_keys(can_divide, lod_octree_depth as nat, l as nat)
            } else {
                Set::<u64>::empty()
            },
{
    let ghost f = can_divide;
    let ghost depth = lod_octree_depth as nat;
    let ghost old_levels = terrain_lod_octree.octree_levels@;
    let max_level = lod_octree_depth;
    while terrain_lod_octree.octree_levels.len() <= max_level as usize
        invariant
            max_level <= MAX_LEVEL,
            old_levels == old(terrain_lod_octree).octree_levels@,
            old_levels.len() <= terrain_lod_octree.octree_levels.len(),
            terrain_lod_octree.octree_levels.len() <= if old_levels.len() <= max_level {
                max_level + 1
            } else {
                old_levels.len() as int
            },
            forall|l: int|
                0 <= l < old_levels.len() ==> #[trigger] terrain_lod_octree.octree_levels[l]
                    == old_levels[l],
            forall|l: int|
                old_levels.len() <= l < terrain_lod_octree.octree_levels.len() ==> (
                #[trigger] terrain_lod_octree.octree_levels[l]).current_spec() == Set::<u64>::empty(),
        decreases max_level + 1 - terrain_lod_octree.octree_levels.len(),
    {
        terrain_lod_octree.octree_levels.push(TerrainLodOctreeLevel::default());
    }
    let n = terrain_lod_octree.octree_levels.len();
    let ghost resized = terrain_lod_octree.octree_levels@;
    let mut i: usize = 0;
    while i < n
        invariant
            n == terrain_lod_octree.octree_levels.len(),
            resized.len() == n,
            i <= n,
            forall|l: int|
                0 <= l < i ==> (#[trigger] terrain_lod_octree.octree_levels[l]).current_spec()
                    == Set::<u64>::empty() && terrain_lod_octree.octree_levels[l].previous_spec()
                    == resized[l].current_spec(),
            forall|l: int| i <= l < n ==> #[trigger] terrain_lod_octree.octree_levels[l] == resized[l],
        decreases n - i,
    {
        terrain_lod_octree.octree_levels[i].swap();
        i = i + 1;
    }
    assert forall|l: int| 0 <= l < n implies #[trigger] resized[l].current_spec() == if l < old_levels.len() {
        old_levels[l].current_spec()
    } else {
        Set::<u64>::empty()
    } by {
        if l < old_levels.len() {
            assert(resized[l] == old_levels[l]);
        }
    }
    if !has_observers {
        return;
    }
    let root = MortonCode::root();
    let mut divided: Vec<MortonCode> = Vec::new();
    let root_divides = if 0 < max_level {
        can_divide(root)
    } else {
        false
    };
    proof {
        if !root_divides && 0 < max_level {
            assert(!call_ensures(f, (root,), true));
        }
        assert(root_divides == divides(f, depth, root));
    }
    if root_divides {
        divided.push(root);
    } else {
        terrain_lod_octree.octree_levels[0].insert_leaf_node(root);
    }
    proof {
        assert forall|c: MortonCode| #[trigger] divided@.contains(c) <==> c.level_spec() == 0
            && divided_cell(f, depth, c) by {
            if c.wf() && c.level_spec() == 0 {
                c.lemma_level_zero_is_root();
            }
            if divided@.contains(c) {
                assert(divided@[0] == c);
            }
            if c.level_spec() == 0 && divided_cell(f, depth, c) {
                assert(divided@[0] == root);
            }
        }
        assert(terrain_lod_octree.octree_levels[0].current_spec() =~= lod_leaf_keys(f, depth, 0)) by {
            assert forall|k: u64| #[trigger] lod_leaf_keys(f, depth, 0).contains(k) implies k
                == node_key(root) && !root_divides by {
                let c = choose|c: MortonCode|
                    #[trigger] lod_leaf(f, depth, c) && c.level_spec() == 0 && node_key(c) == k;
                c.lemma_level_zero_is_root();
            }
            if !root_divides {
                assert(lod_leaf(f, depth, root));
                assert(lod_leaf_keys(f, depth, 0).contains(node_key(root)));
            }
        }
    }
    let mut level: u8 = 1;
    while level <= max_level && divided.len() > 0
        invariant
            1 <= level <= max_level + 1,
            max_level <= MAX_LEVEL,
            f == can_divide,
            depth == max_level as nat,
            forall|c: MortonCode| call_requires(can_divide, (c,)),
            answers_once(can_divide),
            n == terrain_lod_octree.octree_levels.len(),
            n > max_level,
            forall|l: int|
                0 <= l < n ==> (#[trigger] terrain_lod_octree.octree_levels[l]).previous_spec()
                    == resized[l].current_spec(),
            forall|l: int|
                0 <= l < level ==> (#[trigger] terrain_lod_octree.octree_levels[l]).current_spec()
                    == lod_leaf_keys(f, depth, l as nat),
            forall|l: int|
                level <= l < n ==> (#[trigger] terrain_lod_octree.octree_levels[l]).current_spec()
                    == Set::<u64>::empty(),
            forall|c: MortonCode|
                #[trigger] divided@.contains(c) <==> c.level_spec() == level - 1 && divided_cell(
                    f,
                    depth,
                    c,
                ),
        decreases max_level + 1 - level,
    {
        let mut next: Vec<MortonCode> = Vec::new();
        let mut i: usize = 0;
        while i < divided.len()
            invariant
                1 <= level <= max_level,
                max_level <= MAX_LEVEL,
                f == can_divide,
                depth == max_level as nat,
                forall|c: MortonCode| call_requires(can_divide, (c,)),
                answers_once(can_divide),
                n == terrain_lod_octree.octree_levels.len(),
                n > max_level,
                i <= divided.len(),
                forall|l: int|
                    0 <= l < n ==> (#[trigger] terrain_lod_octree.octree_levels[l]).previous_spec()
                        == resized[l].current_spec(),
                forall|l: int|
                    0 <= l < level ==> (#[trigger] terrain_lod_octree.octree_levels[l]).current_spec()
                        == lod_leaf_keys(f, depth, l as nat),
                forall|l: int|
                    level < l < n ==> (#[trigger] terrain_lod_octree.octree_levels[l]).current_spec()
                        == Set::<u64>::empty(),
                terrain_lod_octree.octree_levels[level as int].current_spec()
                    == undivided_children_keys(f, depth, divided@.take(i as int), 8),
                forall|c: MortonCode|
                    #[trigger] divided@.contains(c) <==> c.level_spec() == level - 1 && divided_cell(
                        f,
                        depth,
                        c,
                    ),
                forall|c: MortonCode|
                    #[trigger] next@.contains(c) <==> exists|p: MortonCode|
                        #![trigger divided@.take(i as int).contains(p), child_of(p, c)]
                        divided@.take(i as int).contains(p) && child_of(p, c) && divides(f, depth, c),
            decreases divided.len() - i,
        {
            let node = divided[i];
            proof {
                assert(divided@.contains(node)) by {
                    assert(divided@[i as int] == node);
                }
            }
            let ghost cur_before = terrain_lod_octree.octree_levels[level as int].current_spec();
            let ghost next_before = next@;
            divide_children(
                &mut terrain_lod_octree.octree_levels[level as usize],
                &mut next,
                node,
                max_level,
                &can_divide,
            );
            proof {
                let t0 = divided@.take(i as int);
                let t1 = divided@.take(i as int + 1);
                assert forall|p: MortonCode| #[trigger] t1.contains(p) <==> t0.contains(p) || p == node by {
                    if t1.contains(p) {
                        let j = choose|j: int| 0 <= j < t1.len() && t1[j] == p;
                        if j < i {
                            assert(t0[j] == p);
                        }
                    }
                    if t0.contains(p) {
                        let j = choose|j: int| 0 <= j < t0.len() && t0[j] == p;
                        assert(t1[j] == p);
                    }
                    if p == node {
                        assert(t1[i as int] == p);
                    }
                }
                let a = undivided_children_keys(f, depth, t0, 8);
                let b = undivided_children_keys(f, depth, seq![node], 8);
                let u = undivided_children_keys(f, depth, t1, 8);
                assert forall|k: u64| #[trigger] u.contains(k) <==> a.contains(k) || b.contains(k) by {
                    if u.contains(k) {
                        let (p, c) = choose|p: MortonCode, c: MortonCode|
                            #![trigger t1.contains(p), child_of(p, c)]
                            t1.contains(p) && child_of(p, c) && c.code_spec() % 8 < 8 && !divides(
                                f,
                                depth,
                                c,
                            ) && node_key(c) == k;
                        if p == node {
                            assert(seq![node].contains(p)) by {
                                assert(seq![node][0] == p);
                            }
                        }
                    }
                    if a.contains(k) {
                        let (p, c) = choose|p: MortonCode, c: MortonCode|
                            #![trigger t0.contains(p), child_of(p, c)]
                            t0.contains(p) && child_of(p, c) && c.code_spec() % 8 < 8 && !divides(
                                f,
                                depth,
                                c,
                            ) && node_key(c) == k;
                        assert(t1.contains(p));
                    }
                    if b.contains(k) {
                        let (p, c) = choose|p: MortonCode, c: MortonCode|
                            #![trigger seq![node].contains(p), child_of(p, c)]
                            seq![node].contains(p) && child_of(p, c) && c.code_spec() % 8 < 8 && !divides(
                                f,
                                depth,
                                c,
                            ) && node_key(c) == k;
                        assert(p == node) by {
                            let j = choose|j: int| 0 <= j < 1 && seq![node][j] == p;
                        }
                        assert(t1.contains(p));
                    }
                }
                assert(terrain_lod_octree.octree_levels[level as int].current_spec() =~= u);
                assert forall|c: MortonCode| #[trigger] next@.contains(c) <==> exists|p: MortonCode|
                    #![trigger t1.contains(p), child_of(p, c)]
                    t1.contains(p) && child_of(p, c) && divides(f, depth, c) by {
                    if next@.contains(c) {
                        if next_before.contains(c) {
                            let p = choose|p: MortonCode|
                                #![trigger t0.contains(p), child_of(p, c)]
                                t0.contains(p) && child_of(p, c) && divides(f, depth, c);
                            assert(t1.contains(p));
                        } else {
                            assert(t1.contains(node));
                        }
                    }
                    if exists|p: MortonCode|
                        #![trigger t1.contains(p), child_of(p, c)]
                        t1.contains(p) && child_of(p, c) && divides(f, depth, c) {
                        let p = choose|p: MortonCode|
                            #![trigger t1.contains(p), child_of(p, c)]
                            t1.contains(p) && child_of(p, c) && divides(f, depth, c);
                        if p != node {
                            assert(t0.contains(p));
                        }
                    }
                }
            }
            i = i + 1;
        }
        proof {
            assert(divided@.take(divided.len() as int) =~= divided@);
            lemma_leaf_keys_below(f, depth, divided@, level as nat);
            assert forall|c: MortonCode| #[trigger] next@.contains(c) <==> c.level_spec() == level
                && divided_cell(f, depth, c) by {
                if next@.contains(c) {
                    let p = choose|p: MortonCode|
                        #![trigger divided@.contains(p), child_of(p, c)]
                        divided@.contains(p) && child_of(p, c) && divides(f, depth, c);
                    lemma_child_of_parent(c);
                }
                if c.level_spec() == level && divided_cell(f, depth, c) {
                    lemma_child_of_parent(c);
                    c.lemma_parent_spec();
                    let p = c.parent_spec();
                    assert(divided@.contains(p));
                }
            }
        }
        divided = next;
        level = level + 1;
    }
    proof {
        assert forall|l: int| level <= l < n implies #[trigger] lod_leaf_keys(f, depth, l as nat) =~= Set::<
            u64,
        >::empty() by {
            assert forall|k: u64| !(#[trigger] lod_leaf_keys(f, depth, l as nat).contains(k)) by {
                if lod_leaf_keys(f, depth, l as nat).contains(k) {
                    let c = choose|c: MortonCode|
                        #[trigger] lod_leaf(f, depth, c) && c.level_spec() == l && node_key(c) == k;
                    if level <= max_level {
                        let m = (l - (level - 1)) as nat;
                        lemma_ancestors_divided_up(f, depth, c, m);
                        assert(divided@.contains(ancestor_up(c, m)));
                    }
                }
            }
        }
    }
}


/// Going up from a cell: each ancestor is a cell `m` levels up, and one more
/// level up is its parent.
pub(crate) proof fn lemma_ancestor_up(c: MortonCode, m: nat)
    requires
        c.wf(),
        m <= c.level_spec(),
    ensures
        ancestor_up(c, m).wf(),
        ancestor_up(c, m).level_spec() == c.level_spec() - m,
        m < c.level_spec() ==> ancestor_up(c, m + 1) == ancestor_up(c, m).parent_spec(),
    decreases m,
{
    if m > 0 {
        c.lemma_parent_spec();
        lemma_ancestor_up(c.parent_spec(), (m - 1) as nat);
    } else if m < c.level_spec() {
        c.lemma_parent_spec();
        assert(ancestor_up(c, 1) == ancestor_up(c.parent_spec(), 0));
    }
}

/// The ancestors of the cell `m` levels up from `x` are all divided exactly
/// when each cell above it on the way to the root is divided.
proof fn lemma_ancestors_divided_iff<F: Fn(MortonCode) -> bool>(
    can_divide: F,
    depth: nat,
    x: MortonCode,
    m: nat,
)
    requires
        x.wf(),
        m <= x.level_spec(),
    ensures
        ancestors_divided(can_divide, depth, ancestor_up(x, m), ancestor_up(x, m).level_spec())
            <==> forall|m2: nat|
            m < m2 <= x.level_spec() ==> divides(can_divide, depth, #[trigger] ancestor_up(x, m2)),
    decreases x.level_spec() - m,
{
    lemma_ancestor_up(x, m);
    let a = ancestor_up(x, m);
    if m < x.level_spec() {
        lemma_ancestor_up(x, m + 1);
        lemma_ancestors_divided_iff(can_divide, depth, x, m + 1);
        assert(a.level_spec() > 0);
        assert(ancestors_divided(can_divide, depth, a, a.level_spec()) == (divides(
            can_divide,
            depth,
            a.parent_spec(),
        ) && ancestors_divided(can_divide, depth, a.parent_spec(), (a.level_spec() - 1) as nat)));
        if forall|m2: nat|
            m + 1 < m2 <= x.level_spec() ==> divides(can_divide, depth, #[trigger] ancestor_up(x, m2)) {
            if divides(can_divide, depth, ancestor_up(x, m + 1)) {
                assert forall|m2: nat| m < m2 <= x.level_spec() implies divides(
                    can_divide,
                    depth,
                    #[trigger] ancestor_up(x, m2),
                ) by {
                    if m2 > m + 1 {
                        assert(m + 1 < m2 <= x.level_spec());
                    }
                }
            }
        }
    }
}

/// Of the cells up from `x` at most `m` levels, where every one further up
/// is divided, one is a leaf.
proof fn lemma_leaf_on_the_way<F: Fn(MortonCode) -> bool>(
    can_divide: F,
    depth: nat,
    x: MortonCode,
    m: nat,
)
    requires
        x.wf(),
        x.level_spec() == depth,
        m <= depth,
        forall|m2: nat| m < m2 <= depth ==> divides(can_divide, depth, #[trigger] ancestor_up(x, m2)),
    ensures
        exists|m2: nat| m2 <= depth && #[trigger] lod_leaf(can_divide, depth, ancestor_up(x, m2)),
    decreases m,
{
    lemma_ancestor_up(x, m);
    lemma_ancestors_divided_iff(can_divide, depth, x, m);
    if !divides(can_divide, depth, ancestor_up(x, m)) {
        assert(lod_leaf(can_divide, depth, ancestor_up(x, m)));
    } else {
        assert(ancestor_up(x, 0) == x);
        assert(m > 0);
        assert forall|m2: nat| m - 1 < m2 <= depth implies divides(
            can_divide,
            depth,
            #[trigger] ancestor_up(x, m2),
        ) by {
            if m2 > m {
                assert(m < m2 <= depth);
            }
        }
        lemma_leaf_on_the_way(can_divide, depth, x, (m - 1) as nat);
    }
}

/// The leaves of an update tile the grid of its deepest level: of a cell of
/// that level and its ancestors, exactly one is a leaf.
pub proof fn lemma_lod_leaves_tile<F: Fn(MortonCode) -> bool>(can_divide: F, depth: nat, x: MortonCode)
    requires
        x.wf(),
        x.level_spec() == depth,
    ensures
        exists|m: nat| m <= depth && #[trigger] lod_leaf(can_divide, depth, ancestor_up(x, m)),
        forall|m1: nat, m2: nat|
            m1 <= depth && m2 <= depth && #[trigger] lod_leaf(can_divide, depth, ancestor_up(x, m1))
                && #[trigger] lod_leaf(can_divide, depth, ancestor_up(x, m2)) ==> m1 == m2,
{
    lemma_leaf_on_the_way(can_divide, depth, x, depth);
    assert forall|m1: nat, m2: nat|
        m1 <= depth && m2 <= depth && #[trigger] lod_leaf(can_divide, depth, ancestor_up(x, m1))
            && #[trigger] lod_leaf(can_divide, depth, ancestor_up(x, m2)) implies m1 == m2 by {
        lemma_ancestors_divided_iff(can_divide, depth, x, m1);
        lemma_ancestors_divided_iff(can_divide, depth, x, m2);
        if m1 < m2 {
            assert(divides(can_divide, depth, ancestor_up(x, m2)));
        } else if m2 < m1 {
            assert(divides(can_divide, depth, ancestor_up(x, m1)));
        }
    }
}

} // verus!

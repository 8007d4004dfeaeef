//! Simplifying an octree held in one map of all its levels, from the level
//! above the leaves up to the root: a node whose children that the map
//! holds are all leaves becomes a leaf, its children dropped, where the
//! collapse test passes it.
//!
//! The test stands for the error bound on the node's merged error quadric:
//! the quadrics and vertex positions are kept beside the map by the code
//! that computes them.
use std::collections::HashMap;
use vstd::prelude::*;
use vstd::arithmetic::power2::{pow2, lemma_pow2_unfold, lemma2_to64, lemma_pow2_pos};
use crate::coord_address::{ceil_log2, lemma_ceil_log2_is_least};
use crate::dc_octree::{Node, NodeType, Octree, key_cell, voxel_before};
use crate::lod_octree::{answers_once, ancestor_up, lemma_ancestor_up};
use crate::math::UVec3;
use crate::morton_code::{MortonCode, node_key, lemma_node_key_injective};
use crate::tables::VertexIndex;

verus! {

broadcast use vstd::std_specs::hash::group_hash_axioms;

/// Whether `k` is the key of a cell (then the cell is `key_cell(k)`).
pub open spec fn is_key(k: u64) -> bool {
    key_cell(k).wf() && node_key(key_cell(k)) == k
}

/// Whether every child of `c` that `m` holds is a leaf.
pub open spec fn children_all_leaves(m: Map<u64, Node>, c: MortonCode) -> bool {
    forall|d: nat|
        d < 8 && #[trigger] m.contains_key(node_key(c.child_spec(d))) ==> m[node_key(
            c.child_spec(d),
        )].node_type == NodeType::Leaf
}

/// Whether the pass over level `level`, having taken the cells of the grid
/// `n` wide before `(x0, y0, z0)`, has collapsed `c`: a node of `m` there
/// whose children in `m` are all leaves and that the test passes.
pub open spec fn collapses<F: Fn(MortonCode) -> bool>(
    m: Map<u64, Node>,
    can_collapse: F,
    level: nat,
    n: nat,
    x0: nat,
    y0: nat,
    z0: nat,
    c: MortonCode,
) -> bool {
    &&& c.wf()
    &&& c.level_spec() == level
    &&& voxel_before(c, n, x0, y0, z0)
    &&& m.contains_key(node_key(c))
    &&& children_all_leaves(m, c)
    &&& call_ensures(can_collapse, (c,), true)
}

/// `n` as a leaf.
pub open spec fn leafify(n: Node) -> Node {
    Node {
        node_type: NodeType::Leaf,
        address: n.address,
        vertices_mat_types: n.vertices_mat_types,
        vertices_side_types: n.vertices_side_types,
    }
}

/// Whether the pass has dropped the node under `k`: a child of a node it
/// collapsed.
pub open spec fn dropped<F: Fn(MortonCode) -> bool>(
    m: Map<u64, Node>,
    can_collapse: F,
    level: nat,
    n: nat,
    x0: nat,
    y0: nat,
    z0: nat,
    k: u64,
) -> bool {
    &&& is_key(k)
    &&& key_cell(k).level_spec() == level + 1
    &&& collapses(m, can_collapse, level, n, x0, y0, z0, key_cell(k).parent_spec())
}

/// The map after the pass over level `level` has taken the cells before
/// `(x0, y0, z0)`.
pub open spec fn level_step_before<F: Fn(MortonCode) -> bool>(
    m: Map<u64, Node>,
    can_collapse: F,
    level: nat,
    n: nat,
    x0: nat,
    y0: nat,
    z0: nat,
) -> Map<u64, Node> {
    Map::new(
        |k: u64| m.contains_key(k) && !dropped(m, can_collapse, level, n, x0, y0, z0, k),
        |k: u64|
            if is_key(k) && collapses(m, can_collapse, level, n, x0, y0, z0, key_cell(k)) {
                leafify(m[k])
            } else {
                m[k]
            },
    )
}

/// The map after the pass over level `level` of the grid `n` wide.
pub open spec fn level_step<F: Fn(MortonCode) -> bool>(
    m: Map<u64, Node>,
    can_collapse: F,
    level: nat,
    n: nat,
) -> Map<u64, Node> {
    level_step_before(m, can_collapse, level, n, n, 0, 0)
}

/// The map after the passes over the levels from `depth - 1` up to `i`; the
/// grid of level `l` is `n / 2^(depth - l)` wide.
pub open spec fn simplified<F: Fn(MortonCode) -> bool>(
    m: Map<u64, Node>,
    can_collapse: F,
    depth: nat,
    n: nat,
    i: nat,
) -> Map<u64, Node>
    decreases depth - i,
{
    if i >= depth {
        m
    } else {
        level_step(
            simplified(m, can_collapse, depth, n, i + 1),
            can_collapse,
            i,
            n / pow2((depth - i) as nat),
        )
    }
}

/// The keys of the children of `c`.
pub open spec fn children_keys(c: MortonCode) -> Set<u64> {
    Set::new(|k: u64| exists|d: nat| d < 8 && k == #[trigger] node_key(c.child_spec(d)))
}

/// Two bounds that put the same cells first give the same map.
proof fn lemma_level_step_eq<F: Fn(MortonCode) -> bool>(
    m: Map<u64, Node>,
    f: F,
    level: nat,
    n: nat,
    a: (nat, nat, nat),
    b: (nat, nat, nat),
)
    requires
        forall|c: MortonCode| voxel_before(c, n, a.0, a.1, a.2) == voxel_before(c, n, b.0, b.1, b.2),
    ensures
        level_step_before(m, f, level, n, a.0, a.1, a.2) == level_step_before(
            m,
            f,
            level,
            n,
            b.0,
            b.1,
            b.2,
        ),
{
    assert(level_step_before(m, f, level, n, a.0, a.1, a.2) =~= level_step_before(
        m,
        f,
        level,
        n,
        b.0,
        b.1,
        b.2,
    ));
}

/// Taking the cell `code` at `(x, y, z)`: where it collapses, its node
/// becomes a leaf and its children go.
proof fn lemma_level_step_next<F: Fn(MortonCode) -> bool>(
    m: Map<u64, Node>,
    f: F,
    level: nat,
    n: nat,
    x: nat,
    y: nat,
    z: nat,
    code: MortonCode,
)
    requires
        code.wf(),
        code.level_spec() == level,
        level < 21,
        code.coord(0) == x,
        code.coord(1) == y,
        code.coord(2) == z,
        x < n,
        y < n,
        z < n,
    ensures
        level_step_before(m, f, level, n, x, y, z + 1) == if collapses(
            m,
            f,
            level,
            n,
            x,
            y,
            z + 1,
            code,
        ) {
            level_step_before(m, f, level, n, x, y, z).insert(
                node_key(code),
                leafify(m[node_key(code)]),
            ).remove_keys(children_keys(code))
        } else {
            level_step_before(m, f, level, n, x, y, z)
        },
{
    let m0 = level_step_before(m, f, level, n, x, y, z);
    let m1 = level_step_before(m, f, level, n, x, y, z + 1);
    let col = collapses(m, f, level, n, x, y, z + 1, code);
    let target = if col {
        m0.insert(node_key(code), leafify(m[node_key(code)])).remove_keys(children_keys(code))
    } else {
        m0
    };
    assert(key_cell(node_key(code)) == code) by {
        lemma_node_key_injective(key_cell(node_key(code)), code);
    }
    assert forall|c: MortonCode| #[trigger] collapses(m, f, level, n, x, y, z + 1, c) == (collapses(
        m,
        f,
        level,
        n,
        x,
        y,
        z,
        c,
    ) || (c == code && col)) by {
        if c.wf() && c.level_spec() == level && c.coord(0) == x && c.coord(1) == y && c.coord(2) == z {
            c.lemma_cell_at();
            code.lemma_cell_at();
        }
    }
    assert forall|k: u64| #[trigger] children_keys(code).contains(k) <==> (is_key(k)
        && key_cell(k).level_spec() == level + 1 && key_cell(k).parent_spec() == code) by {
        if children_keys(code).contains(k) {
            let d = choose|d: nat| d < 8 && k == #[trigger] node_key(code.child_spec(d));
            code.lemma_child_parent(d);
            lemma_node_key_injective(key_cell(k), code.child_spec(d));
        }
        if is_key(k) && key_cell(k).level_spec() == level + 1 && key_cell(k).parent_spec() == code {
            let ch = key_cell(k);
            ch.lemma_parent_spec();
            code.lemma_child_spec(ch, ch.code_spec() % 8);
            assert(k == node_key(code.child_spec(ch.code_spec() % 8)));
        }
    }
    assert forall|k: u64| m1.contains_key(k) == target.contains_key(k) by {
        if is_key(k) && key_cell(k).level_spec() == level + 1 {
            key_cell(k).lemma_parent_spec();
        }
    }
    assert forall|k: u64| m1.contains_key(k) implies m1[k] == target[k] by {
        if is_key(k) && key_cell(k) == code {
            assert(k == node_key(code));
        }
    }
    assert(m1 =~= target);
}

/// Whether the children of `code` that `map` holds are all leaves.
fn children_leaves(map: &HashMap<u64, Node>, code: MortonCode) -> (r: bool)
    requires
        code.level_spec() < 21,
    ensures
        r == children_all_leaves(map@, code),
{
    let mut all_children_leaf = true;
    let mut d: usize = 0;
    while d < 8
        invariant
            d <= 8,
            code.level_spec() < 21,
            all_children_leaf == forall|e: nat|
                e < d && #[trigger] map@.contains_key(node_key(code.child_spec(e)))
                    ==> map@[node_key(code.child_spec(e))].node_type == NodeType::Leaf,
        decreases 8 - d,
    {
        let child = code.child(VertexIndex::from_repr(d).unwrap()).unwrap();
        match map.get(&child.key()) {
            Some(node) => {
                if node.node_type == NodeType::Branch {
                    all_children_leaf = false;
                }
            },
            None => {},
        }
        proof {
            assert(child == code.child_spec(d as nat));
        }
        d = d + 1;
    }
    all_children_leaf
}

/// Drops the children of `code` from `map`.
fn remove_children(map: &mut HashMap<u64, Node>, code: MortonCode)
    requires
        code.level_spec() < 21,
    ensures
        final(map)@ == old(map)@.remove_keys(children_keys(code)),
{
    let ghost start = map@;
    let mut d: usize = 0;
    while d < 8
        invariant
            d <= 8,
            code.level_spec() < 21,
            map@ == start.remove_keys(
                Set::new(|k: u64| exists|e: nat| e < d && k == #[trigger] node_key(code.child_spec(e))),
            ),
        decreases 8 - d,
    {
        let child = code.child(VertexIndex::from_repr(d).unwrap()).unwrap();
        map.remove(&child.key());
        proof {
            assert(child == code.child_spec(d as nat));
            let s1 = Set::new(|k: u64| exists|e: nat| e < d + 1 && k == #[trigger] node_key(code.child_spec(e)));
            assert forall|k: u64| s1.contains(k) <==> (Set::new(
                |k: u64| exists|e: nat| e < d && k == #[trigger] node_key(code.child_spec(e)),
            ).contains(k) || k == node_key(child)) by {
                if s1.contains(k) {
                    let e = choose|e: nat| e < d + 1 && k == #[trigger] node_key(code.child_spec(e));
                    if e < d {
                        assert(exists|e2: nat| e2 < d && k == #[trigger] node_key(code.child_spec(e2)));
                    }
                }
                if k == node_key(child) {
                    assert(k == node_key(code.child_spec(d as nat)));
                }
            }
            assert(map@ =~= start.remove_keys(s1));
        }
        d = d + 1;
    }
    assert(Set::new(|k: u64| exists|e: nat| e < 8 && k == #[trigger] node_key(code.child_spec(e)))
        =~= children_keys(code));
}

/// The pass over level `level` of the grid `size` wide.
fn simplify_level<F: Fn(MortonCode) -> bool>(
    map: &mut HashMap<u64, Node>,
    level: u8,
    size: u32,
    can_collapse: &F,
)
    requires
        level < 21,
        size <= pow2(level as nat),
        forall|c: MortonCode| call_requires(*can_collapse, (c,)),
        answers_once(*can_collapse),
    ensures
        final(map)@ == level_step(old(map)@, *can_collapse, level as nat, size as nat),
{
    let ghost m0 = map@;
    let ghost f = *can_collapse;
    let ghost lv = level as nat;
    let ghost n = size as nat;
    assert(level_step_before(m0, f, lv, n, 0, 0, 0) =~= m0);
    let mut x: u32 = 0;
    while x < size
        invariant
            level < 21,
            size <= pow2(level as nat),
            forall|c: MortonCode| call_requires(*can_collapse, (c,)),
            answers_once(*can_collapse),
            f == *can_collapse,
            lv == level,
            n == size,
            x <= size,
            map@ == level_step_before(m0, f, lv, n, x as nat, 0, 0),
        decreases size - x,
    {
        let mut y: u32 = 0;
        while y < size
            invariant
                level < 21,
                size <= pow2(level as nat),
                forall|c: MortonCode| call_requires(*can_collapse, (c,)),
                answers_once(*can_collapse),
                f == *can_collapse,
                lv == level,
                n == size,
                x < size,
                y <= size,
                map@ == level_step_before(m0, f, lv, n, x as nat, y as nat, 0),
            decreases size - y,
        {
            let mut z: u32 = 0;
            while z < size
                invariant
                    level < 21,
                    size <= pow2(level as nat),
                    forall|c: MortonCode| call_requires(*can_collapse, (c,)),
                    answers_once(*can_collapse),
                    f == *can_collapse,
                    lv == level,
                    n == size,
                    x < size,
                    y < size,
                    z <= size,
                    map@ == level_step_before(m0, f, lv, n, x as nat, y as nat, z as nat),
                decreases size - z,
            {
                let code = MortonCode::encode(UVec3::new(x, y, z), level);
                let key = code.key();
                let ghost cur = map@;
                proof {
                    lemma_node_key_injective(key_cell(key), code);
                    assert(!dropped(m0, f, lv, n, x as nat, y as nat, z as nat, key));
                    assert(!collapses(m0, f, lv, n, x as nat, y as nat, z as nat, code));
                    assert forall|d: nat| d < 8 implies #[trigger] cur.contains_key(
                        node_key(code.child_spec(d)),
                    ) == m0.contains_key(node_key(code.child_spec(d))) && (m0.contains_key(
                        node_key(code.child_spec(d)),
                    ) ==> cur[node_key(code.child_spec(d))] == m0[node_key(code.child_spec(d))]) by {
                        code.lemma_child_parent(d);
                        let ch = code.child_spec(d);
                        lemma_node_key_injective(key_cell(node_key(ch)), ch);
                        assert(!collapses(m0, f, lv, n, x as nat, y as nat, z as nat, ch));
                    }
                    assert(children_all_leaves(cur, code) == children_all_leaves(m0, code)) by {
                        if children_all_leaves(m0, code) {
                            assert forall|d: nat|
                                d < 8 && #[trigger] cur.contains_key(node_key(code.child_spec(d)))
                                    implies cur[node_key(code.child_spec(d))].node_type
                                    == NodeType::Leaf by {
                                assert(m0.contains_key(node_key(code.child_spec(d))));
                            }
                        }
                        if children_all_leaves(cur, code) {
                            assert forall|d: nat|
                                d < 8 && #[trigger] m0.contains_key(node_key(code.child_spec(d)))
                                    implies m0[node_key(code.child_spec(d))].node_type
                                    == NodeType::Leaf by {
                                assert(cur.contains_key(node_key(code.child_spec(d))));
                            }
                        }
                    }
                    lemma_level_step_next(m0, f, lv, n, x as nat, y as nat, z as nat, code);
                }
                if map.contains_key(&key) {
                    let all_children_leaf = children_leaves(map, code);
                    if all_children_leaf {
                        let collapse = can_collapse(code);
                        proof {
                            if !collapse {
                                assert(!call_ensures(f, (code,), true));
                            }
                        }
                        if collapse {
                            let mut node = *map.get(&key).unwrap();
                            node.node_type = NodeType::Leaf;
                            map.insert(key, node);
                            remove_children(map, code);
                            proof {
                                assert(node == leafify(m0[key]));
                            }
                        }
                    }
                }
                z = z + 1;
            }
            proof {
                lemma_level_step_eq(
                    m0,
                    f,
                    lv,
                    n,
                    (x as nat, y as nat, n),
                    (x as nat, (y + 1) as nat, 0),
                );
            }
            y = y + 1;
        }
        proof {
            lemma_level_step_eq(m0, f, lv, n, (x as nat, n, 0), ((x + 1) as nat, 0, 0));
        }
        x = x + 1;
    }
}

impl Octree {
    /// Simplifies the octree that `address_node_map` holds, all levels in
    /// one map by the keys of their cells, over the cube leaf grid
    /// `node_shape`: from the level above the leaves up to the root, every
    /// node of a level whose children in the map are all leaves becomes a
    /// leaf, its children dropped, where `can_collapse` passes it. The
    /// grid of each level is half as wide (rounded down) as the one below.
    pub fn simplify_octree<F: Fn(MortonCode) -> bool>(
        address_node_map: &mut HashMap<u64, Node>,
        node_shape: [u32; 3],
        can_collapse: F,
    )
        requires
            node_shape[0] == node_shape[1],
            node_shape[0] == node_shape[2],
            ceil_log2(node_shape[0] as nat) <= 21,
            forall|c: MortonCode| call_requires(can_collapse, (c,)),
            answers_once(can_collapse),
        ensures
            final(address_node_map)@ == simplified(
                old(address_node_map)@,
                can_collapse,
                ceil_log2(node_shape[0] as nat),
                node_shape[0] as nat,
                0,
            ),
    {
        let ghost m0 = address_node_map@;
        let ghost n = node_shape[0] as nat;
        let depth = Octree::get_octree_depth(&node_shape);
        let ghost dn = depth as nat;
        proof {
            lemma_ceil_log2_is_least(n);
            lemma_pow2_pos(1);
            lemma_pow2_unfold(1);
            lemma2_to64();
        }
        let mut size: u32 = node_shape[0] / 2;
        let mut i: u8 = depth;
        while i > 0
            invariant
                dn == depth,
                depth <= 21,
                i <= depth,
                n == node_shape[0],
                pow2(dn) >= n,
                i > 0 ==> size == n / pow2((dn - i + 1) as nat),
                forall|c: MortonCode| call_requires(can_collapse, (c,)),
                answers_once(can_collapse),
                address_node_map@ == simplified(m0, can_collapse, dn, n, i as nat),
            decreases i,
        {
            i = i - 1;
            proof {
                lemma_pow2_pos((dn - i) as nat);
                vstd::arithmetic::power2::lemma_pow2_adds(i as nat, (dn - i) as nat);
                assert(pow2(i as nat) * pow2((dn - i) as nat) == pow2(dn));
                assert(size <= pow2(i as nat)) by (nonlinear_arith)
                    requires
                        size == n / pow2((dn - i) as nat),
                        pow2(dn) >= n,
                        pow2(i as nat) * pow2((dn - i) as nat) == pow2(dn),
                        pow2((dn - i) as nat) > 0,
                ;
            }
            simplify_level(address_node_map, i, size, &can_collapse);
            proof {
                if i > 0 {
                    lemma_pow2_pos((dn - i) as nat);
                    vstd::arithmetic::div_mod::lemma_div_denominator(
                        n as int,
                        pow2((dn - i) as nat) as int,
                        2,
                    );
                    lemma_pow2_unfold((dn - i + 1) as nat);
                    assert(pow2((dn - i) as nat) * 2 == pow2((dn - i + 1) as nat));
                }
            }
            size = size / 2;
        }
    }
}

/// Whether every node of the map stands at the cell of its key, above the
/// deepest level, every branch has a child in the map and no leaf has one.
pub open spec fn flat_relation_holds(m: Map<u64, Node>) -> bool {
    forall|k: u64|
        #[trigger] m.contains_key(k) ==> {
            let a = m[k].address;
            &&& a.wf()
            &&& a.level_spec() < 21
            &&& node_key(a) == k
            &&& match m[k].node_type {
                NodeType::Branch => exists|d: nat|
                    d < 8 && #[trigger] m.contains_key(node_key(a.child_spec(d))),
                NodeType::Leaf => forall|d: nat|
                    d < 8 ==> !#[trigger] m.contains_key(node_key(a.child_spec(d))),
            }
        }
}

/// A pass over one level keeps every branch with a child and every leaf
/// without one.
pub proof fn lemma_level_step_keeps_relation<F: Fn(MortonCode) -> bool>(
    m: Map<u64, Node>,
    f: F,
    level: nat,
    n: nat,
)
    requires
        flat_relation_holds(m),
    ensures
        flat_relation_holds(level_step(m, f, level, n)),
{
    let r = level_step(m, f, level, n);
    assert forall|k: u64| #[trigger] r.contains_key(k) implies {
        let a = r[k].address;
        &&& a.wf()
        &&& a.level_spec() < 21
        &&& node_key(a) == k
        &&& match r[k].node_type {
            NodeType::Branch => exists|d: nat|
                d < 8 && #[trigger] r.contains_key(node_key(a.child_spec(d))),
            NodeType::Leaf => forall|d: nat|
                d < 8 ==> !#[trigger] r.contains_key(node_key(a.child_spec(d))),
        }
    } by {
        let a = m[k].address;
        assert(m.contains_key(k));
        lemma_node_key_injective(key_cell(k), a);
        assert(r[k].address == a);
        if is_key(k) && collapses(m, f, level, n, n, 0, 0, key_cell(k)) {
            assert forall|d: nat| d < 8 implies !#[trigger] r.contains_key(node_key(a.child_spec(d))) by {
                a.lemma_child_parent(d);
                let ch = a.child_spec(d);
                lemma_node_key_injective(key_cell(node_key(ch)), ch);
                assert(dropped(m, f, level, n, n, 0, 0, node_key(ch)));
            }
        } else if m[k].node_type == NodeType::Branch {
            let d = choose|d: nat| d < 8 && #[trigger] m.contains_key(node_key(a.child_spec(d)));
            a.lemma_child_parent(d);
            let ch = a.child_spec(d);
            lemma_node_key_injective(key_cell(node_key(ch)), ch);
            assert(!dropped(m, f, level, n, n, 0, 0, node_key(ch)));
            assert(r.contains_key(node_key(a.child_spec(d))));
        }
    }
}

/// Simplifying keeps every branch with a child and every leaf without one:
/// what `check_nodes_relation` asks of an octree holds of the simplified
/// map where it held before.
pub proof fn lemma_simplified_keeps_relation<F: Fn(MortonCode) -> bool>(
    m: Map<u64, Node>,
    f: F,
    depth: nat,
    n: nat,
    i: nat,
)
    requires
        flat_relation_holds(m),
    ensures
        flat_relation_holds(simplified(m, f, depth, n, i)),
    decreases depth - i,
{
    if i < depth {
        lemma_simplified_keeps_relation(m, f, depth, n, i + 1);
        lemma_level_step_keeps_relation(
            simplified(m, f, depth, n, i + 1),
            f,
            i,
            n / pow2((depth - i) as nat),
        );
    }
}

/// Whether the parent of every node of the map below the root is in the
/// map too.
pub open spec fn parents_held(m: Map<u64, Node>) -> bool {
    forall|k: u64|
        #[trigger] m.contains_key(k) && m[k].address.level_spec() > 0 ==> m.contains_key(
            node_key(m[k].address.parent_spec()),
        )
}

/// The child of `p` that `a` is, where `p` is `a`'s parent.
proof fn lemma_child_of(a: MortonCode)
    requires
        a.wf(),
        a.level_spec() > 0,
    ensures
        a.parent_spec().wf(),
        a.parent_spec().level_spec() < 21,
        a == a.parent_spec().child_spec(a.code_spec() % 8),
        a.code_spec() % 8 < 8,
{
    a.lemma_parent_spec();
    a.parent_spec().lemma_child_spec(a, a.code_spec() % 8);
}

/// A pass over one level keeps the parent of every node it keeps.
proof fn lemma_level_step_keeps_parents<F: Fn(MortonCode) -> bool>(
    m: Map<u64, Node>,
    f: F,
    level: nat,
    n: nat,
)
    requires
        flat_relation_holds(m),
        parents_held(m),
    ensures
        parents_held(level_step(m, f, level, n)),
{
    let r = level_step(m, f, level, n);
    assert forall|k: u64| #[trigger] r.contains_key(k) && r[k].address.level_spec() > 0 implies r.contains_key(
        node_key(r[k].address.parent_spec()),
    ) by {
        let a = m[k].address;
        assert(m.contains_key(k));
        lemma_node_key_injective(key_cell(k), a);
        assert(r[k].address == a);
        let p = a.parent_spec();
        lemma_child_of(a);
        let pk = node_key(p);
        assert(m.contains_key(pk));
        if !r.contains_key(pk) {
            assert(dropped(m, f, level, n, n, 0, 0, pk));
            lemma_node_key_injective(key_cell(pk), p);
            let q = p.parent_spec();
            lemma_child_of(p);
            let d = p.code_spec() % 8;
            assert(collapses(m, f, level, n, n, 0, 0, q));
            assert(children_all_leaves(m, q));
            assert(m.contains_key(node_key(q.child_spec(d))));
            assert(m[pk].node_type == NodeType::Leaf);
            let b = m[pk].address;
            assert(b.wf() && node_key(b) == pk);
            lemma_node_key_injective(b, p);
            let e = a.code_spec() % 8;
            assert(!m.contains_key(node_key(b.child_spec(e))));
            assert(false);
        }
    }
}

/// Simplifying a map whose every branch has a child, no leaf one, and every
/// node below the root its parent, keeps the parent of every node it keeps:
/// it drops no node without the nodes below it.
pub proof fn lemma_simplified_keeps_parents<F: Fn(MortonCode) -> bool>(
    m: Map<u64, Node>,
    f: F,
    depth: nat,
    n: nat,
    i: nat,
)
    requires
        flat_relation_holds(m),
        parents_held(m),
    ensures
        parents_held(simplified(m, f, depth, n, i)),
    decreases depth - i,
{
    if i < depth {
        lemma_simplified_keeps_parents(m, f, depth, n, i + 1);
        lemma_simplified_keeps_relation(m, f, depth, n, i + 1);
        lemma_level_step_keeps_parents(
            simplified(m, f, depth, n, i + 1),
            f,
            i,
            n / pow2((depth - i) as nat),
        );
    }
}

/// What simplifying `m` into `s` may do and what it keeps: `s` holds only
/// keys of `m`, each with its node's cell and corner materials and sides
/// (a collapse changes a node's type alone), and no leaf of `m` becomes a
/// branch; every node it drops lies below a node that `s` holds as a leaf;
/// and a branch of `m` that `s` holds as a leaf has lost all its children.
pub open spec fn simplify_shape(m: Map<u64, Node>, s: Map<u64, Node>) -> bool {
    &&& forall|k: u64|
        #[trigger] s.contains_key(k) ==> m.contains_key(k) && s[k].address == m[k].address && (
        m[k].node_type == NodeType::Leaf ==> s[k].node_type == NodeType::Leaf)
            && s[k].vertices_mat_types == m[k].vertices_mat_types && s[k].vertices_side_types
            == m[k].vertices_side_types
    &&& forall|k: u64|
        #[trigger] m.contains_key(k) && !s.contains_key(k) ==> is_key(k) && exists|t: nat|
            1 <= t <= key_cell(k).level_spec() && s.contains_key(
                node_key(#[trigger] ancestor_up(key_cell(k), t)),
            ) && s[node_key(ancestor_up(key_cell(k), t))].node_type == NodeType::Leaf
    &&& forall|k: u64|
        #[trigger] s.contains_key(k) && m[k].node_type == NodeType::Branch && s[k].node_type
            == NodeType::Leaf ==> forall|d: nat|
            d < 8 ==> !#[trigger] s.contains_key(node_key(key_cell(k).child_spec(d)))
}

/// One pass has the shape of a simplification, and the parent of each node
/// it drops is a leaf it holds.
proof fn lemma_level_step_shape<F: Fn(MortonCode) -> bool>(
    m: Map<u64, Node>,
    f: F,
    level: nat,
    n: nat,
)
    requires
        level < 21,
    ensures
        forall|k: u64|
            #[trigger] level_step(m, f, level, n).contains_key(k) ==> m.contains_key(k) && level_step(
                m,
                f,
                level,
                n,
            )[k].address == m[k].address && (m[k].node_type == NodeType::Leaf ==> level_step(
                m,
                f,
                level,
                n,
            )[k].node_type == NodeType::Leaf) && level_step(m, f, level, n)[k].vertices_mat_types
                == m[k].vertices_mat_types && level_step(m, f, level, n)[k].vertices_side_types
                == m[k].vertices_side_types,
        forall|k: u64|
            #[trigger] m.contains_key(k) && !level_step(m, f, level, n).contains_key(k) ==> is_key(k)
                && key_cell(k).level_spec() >= 1 && level_step(m, f, level, n).contains_key(
                node_key(key_cell(k).parent_spec()),
            ) && level_step(m, f, level, n)[node_key(key_cell(k).parent_spec())].node_type
                == NodeType::Leaf,
        forall|k: u64|
            #[trigger] level_step(m, f, level, n).contains_key(k) && m[k].node_type == NodeType::Branch
                && level_step(m, f, level, n)[k].node_type == NodeType::Leaf ==> forall|d: nat|
                d < 8 ==> !#[trigger] level_step(m, f, level, n).contains_key(
                    node_key(key_cell(k).child_spec(d)),
                ),
{
    let r = level_step(m, f, level, n);
    assert forall|k: u64| #[trigger] m.contains_key(k) && !r.contains_key(k) implies is_key(k)
        && key_cell(k).level_spec() >= 1 && r.contains_key(node_key(key_cell(k).parent_spec()))
        && r[node_key(key_cell(k).parent_spec())].node_type == NodeType::Leaf by {
        let p = key_cell(k).parent_spec();
        assert(collapses(m, f, level, n, n, 0, 0, p));
        lemma_node_key_injective(key_cell(node_key(p)), p);
    }
    assert forall|k: u64|
        #[trigger] r.contains_key(k) && m[k].node_type == NodeType::Branch && r[k].node_type
            == NodeType::Leaf implies forall|d: nat|
        d < 8 ==> !#[trigger] r.contains_key(node_key(key_cell(k).child_spec(d))) by {
        let c = key_cell(k);
        assert(is_key(k) && collapses(m, f, level, n, n, 0, 0, c));
        assert forall|d: nat| d < 8 implies !#[trigger] r.contains_key(node_key(c.child_spec(d))) by {
            c.lemma_child_parent(d);
            let ch = c.child_spec(d);
            lemma_node_key_injective(key_cell(node_key(ch)), ch);
            assert(dropped(m, f, level, n, n, 0, 0, node_key(ch)));
        }
    }
}

/// Simplifying keeps only keys of the map, each with its cell and its
/// corner materials and sides; never turns
/// a leaf into a branch; leaves every node it drops below a node it holds as
/// a leaf; and turns a branch into a leaf only with all its children gone.
pub proof fn lemma_simplified_shape<F: Fn(MortonCode) -> bool>(
    m: Map<u64, Node>,
    f: F,
    depth: nat,
    n: nat,
    i: nat,
)
    requires
        depth <= 21,
    ensures
        simplify_shape(m, simplified(m, f, depth, n, i)),
    decreases depth - i,
{
    if i >= depth {
        assert(simplified(m, f, depth, n, i) == m);
    } else {
        let t = simplified(m, f, depth, n, i + 1);
        let sz = n / pow2((depth - i) as nat);
        let s = level_step(t, f, i, sz);
        assert(simplified(m, f, depth, n, i) == s);
        lemma_simplified_shape(m, f, depth, n, i + 1);
        lemma_level_step_shape(t, f, i, sz);
        assert forall|k: u64| #[trigger] s.contains_key(k) implies m.contains_key(k) && s[k].address
            == m[k].address && (m[k].node_type == NodeType::Leaf ==> s[k].node_type
            == NodeType::Leaf) && s[k].vertices_mat_types == m[k].vertices_mat_types
            && s[k].vertices_side_types == m[k].vertices_side_types by {
            assert(t.contains_key(k));
        }
        assert forall|k: u64| #[trigger] m.contains_key(k) && !s.contains_key(k) implies is_key(k)
            && exists|tt: nat|
            1 <= tt <= key_cell(k).level_spec() && s.contains_key(
                node_key(#[trigger] ancestor_up(key_cell(k), tt)),
            ) && s[node_key(ancestor_up(key_cell(k), tt))].node_type == NodeType::Leaf by {
            let kc = key_cell(k);
            if t.contains_key(k) {
                lemma_ancestor_up(kc, 0);
                assert(ancestor_up(kc, 0) == kc);
                assert(ancestor_up(kc, 1) == kc.parent_spec());
                assert(s.contains_key(node_key(ancestor_up(kc, 1))));
            } else {
                let tt = choose|tt: nat|
                    1 <= tt <= kc.level_spec() && t.contains_key(
                        node_key(#[trigger] ancestor_up(kc, tt)),
                    ) && t[node_key(ancestor_up(kc, tt))].node_type == NodeType::Leaf;
                let a = ancestor_up(kc, tt);
                lemma_ancestor_up(kc, tt);
                if s.contains_key(node_key(a)) {
                    assert(s.contains_key(node_key(ancestor_up(kc, tt))));
                } else {
                    lemma_node_key_injective(key_cell(node_key(a)), a);
                    assert(key_cell(node_key(a)).level_spec() >= 1);
                    assert(tt < kc.level_spec());
                    assert(ancestor_up(kc, tt + 1) == a.parent_spec());
                    assert(s.contains_key(node_key(ancestor_up(kc, tt + 1))));
                }
            }
        }
        assert forall|k: u64|
            #[trigger] s.contains_key(k) && m[k].node_type == NodeType::Branch && s[k].node_type
                == NodeType::Leaf implies forall|d: nat|
            d < 8 ==> !#[trigger] s.contains_key(node_key(key_cell(k).child_spec(d))) by {
            assert(t.contains_key(k));
            if t[k].node_type == NodeType::Leaf {
                assert forall|d: nat| d < 8 implies !#[trigger] s.contains_key(
                    node_key(key_cell(k).child_spec(d)),
                ) by {
                    assert(!t.contains_key(node_key(key_cell(k).child_spec(d))));
                }
            }
        }
    }
}

} // verus!

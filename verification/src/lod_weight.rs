//! How the leaves of an LOD update cover the root cell: a leaf of level `l`
//! of an update of depth `depth` covers `8^(depth - l)` cells of the deepest
//! level, and together the leaves cover each of the `8^depth` cells once.
use vstd::prelude::*;
use crate::address::pow8;
use crate::morton_code::{MortonCode, node_key, lemma_node_key_injective};
use crate::lod_octree::{
    divides, ancestors_divided, lod_leaf, lod_leaf_keys, ancestor_up, lemma_ancestors_divided_up,
};

verus! {

/// The weight of the leaves of the first `l` levels of an update: each
/// leaf of level `i` weighs `8^(depth - i)`.
pub open spec fn lod_leaves_weight<F: Fn(MortonCode) -> bool>(can_divide: F, depth: nat, l: nat) -> nat
    decreases l,
{
    if l == 0 {
        0
    } else {
        lod_leaves_weight(can_divide, depth, (l - 1) as nat) + lod_leaf_keys(
            can_divide,
            depth,
            (l - 1) as nat,
        ).len() * pow8((depth - (l - 1)) as nat)
    }
}

/// Whether the update divides every ancestor of the cell of level `l` with
/// code `k`.
spec fn alive<F: Fn(MortonCode) -> bool>(can_divide: F, depth: nat, l: nat, k: nat) -> bool {
    ancestors_divided(can_divide, depth, MortonCode::of_code(k, l), l)
}

/// Whether the update divides the cell of level `l` with code `k` and every
/// ancestor of it.
spec fn split<F: Fn(MortonCode) -> bool>(can_divide: F, depth: nat, l: nat, k: nat) -> bool {
    alive(can_divide, depth, l, k) && divides(can_divide, depth, MortonCode::of_code(k, l))
}

/// How many of the first `n` cells of level `l` have all their ancestors
/// divided.
spec fn count_alive<F: Fn(MortonCode) -> bool>(can_divide: F, depth: nat, l: nat, n: nat) -> nat
    decreases n,
{
    if n == 0 {
        0
    } else {
        count_alive(can_divide, depth, l, (n - 1) as nat) + if alive(
            can_divide,
            depth,
            l,
            (n - 1) as nat,
        ) {
            1nat
        } else {
            0nat
        }
    }
}

/// How many of the first `n` cells of level `l` are divided with all their
/// ancestors.
spec fn count_split<F: Fn(MortonCode) -> bool>(can_divide: F, depth: nat, l: nat, n: nat) -> nat
    decreases n,
{
    if n == 0 {
        0
    } else {
        count_split(can_divide, depth, l, (n - 1) as nat) + if split(
            can_divide,
            depth,
            l,
            (n - 1) as nat,
        ) {
            1nat
        } else {
            0nat
        }
    }
}

/// How many of the first `n` cells of level `l` are leaves: all their
/// ancestors divided, and they not.
spec fn count_leaf<F: Fn(MortonCode) -> bool>(can_divide: F, depth: nat, l: nat, n: nat) -> nat
    decreases n,
{
    if n == 0 {
        0
    } else {
        count_leaf(can_divide, depth, l, (n - 1) as nat) + if alive(
            can_divide,
            depth,
            l,
            (n - 1) as nat,
        ) && !divides(can_divide, depth, MortonCode::of_code((n - 1) as nat, l)) {
            1nat
        } else {
            0nat
        }
    }
}

/// A cell whose ancestors are all divided is divided or a leaf.
proof fn lemma_count_parts<F: Fn(MortonCode) -> bool>(can_divide: F, depth: nat, l: nat, n: nat)
    ensures
        count_alive(can_divide, depth, l, n) == count_split(can_divide, depth, l, n) + count_leaf(
            can_divide,
            depth,
            l,
            n,
        ),
    decreases n,
{
    if n > 0 {
        lemma_count_parts(can_divide, depth, l, (n - 1) as nat);
    }
}

/// The ancestors of a child are all divided exactly when its parent is
/// divided with all its ancestors.
proof fn lemma_alive_child<F: Fn(MortonCode) -> bool>(
    can_divide: F,
    depth: nat,
    l: nat,
    n: nat,
    j: nat,
)
    requires
        l < 21,
        n < pow8(l),
        j < 8,
    ensures
        alive(can_divide, depth, l + 1, 8 * n + j) == split(can_divide, depth, l, n),
{
    assert(pow8(l + 1) == 8 * pow8(l));
    MortonCode::lemma_of_code(8 * n + j, l + 1);
    MortonCode::lemma_of_code(n, l);
    let c = MortonCode::of_code(8 * n + j, l + 1);
    c.lemma_parent_spec();
    assert((8 * n + j) / 8 == n);
    let p = c.parent_spec();
    assert(p == MortonCode::of_code(p.code_spec(), p.level_spec()));
    assert(ancestors_divided(can_divide, depth, c, l + 1) == (divides(can_divide, depth, p)
        && ancestors_divided(can_divide, depth, p, l)));
}

/// The children of the first `n` cells of level `l`, and the first `j`
/// children of the next, have all their ancestors divided eight for each of
/// those cells that is divided with all its ancestors.
proof fn lemma_count_children<F: Fn(MortonCode) -> bool>(
    can_divide: F,
    depth: nat,
    l: nat,
    n: nat,
    j: nat,
)
    requires
        l < 21,
        j <= 8,
        n <= pow8(l),
        j > 0 ==> n < pow8(l),
    ensures
        count_alive(can_divide, depth, l + 1, 8 * n + j) == 8 * count_split(can_divide, depth, l, n)
            + if split(can_divide, depth, l, n) {
            j
        } else {
            0
        },
    decreases n, j,
{
    if j > 0 {
        lemma_count_children(can_divide, depth, l, n, (j - 1) as nat);
        lemma_alive_child(can_divide, depth, l, n, (j - 1) as nat);
        assert((8 * n + j - 1) as nat == 8 * n + (j - 1));
    } else if n > 0 {
        lemma_count_children(can_divide, depth, l, (n - 1) as nat, 8);
        assert(8 * (n - 1) + 8 == 8 * n);
    }
}

/// The cells of the deepest level of an update are never divided.
proof fn lemma_count_split_deepest<F: Fn(MortonCode) -> bool>(can_divide: F, depth: nat, n: nat)
    requires
        depth <= 21,
        n <= pow8(depth),
    ensures
        count_split(can_divide, depth, depth, n) == 0,
    decreases n,
{
    if n > 0 {
        lemma_count_split_deepest(can_divide, depth, (n - 1) as nat);
        MortonCode::lemma_of_code((n - 1) as nat, depth);
    }
}

/// The sum over the levels above `l` of their leaves, each weighing the
/// cells of the deepest level below it.
spec fn leaf_total<F: Fn(MortonCode) -> bool>(can_divide: F, depth: nat, l: nat) -> nat
    decreases l,
{
    if l == 0 {
        0
    } else {
        leaf_total(can_divide, depth, (l - 1) as nat) + count_leaf(
            can_divide,
            depth,
            (l - 1) as nat,
            pow8((l - 1) as nat),
        ) * pow8((depth - (l - 1)) as nat)
    }
}

/// The leaves above level `l`, with the cells of level `l` whose ancestors
/// are all divided, cover the cells of the deepest level.
proof fn lemma_leaf_total<F: Fn(MortonCode) -> bool>(can_divide: F, depth: nat, l: nat)
    requires
        depth <= 21,
        l <= depth,
    ensures
        leaf_total(can_divide, depth, l) + count_alive(can_divide, depth, l, pow8(l)) * pow8(
            (depth - l) as nat,
        ) == pow8(depth),
    decreases l,
{
    if l == 0 {
        assert(pow8(0) == 1);
        assert(count_alive(can_divide, depth, 0, 0) == 0);
        assert(alive(can_divide, depth, 0, 0));
        assert(count_alive(can_divide, depth, 0, 1) == 1);
    } else {
        let i = (l - 1) as nat;
        lemma_leaf_total(can_divide, depth, i);
        lemma_count_parts(can_divide, depth, i, pow8(i));
        lemma_count_children(can_divide, depth, i, pow8(i), 0);
        assert(pow8(l) == 8 * pow8(i));
        assert(8 * pow8(i) + 0 == pow8(l));
        assert(pow8((depth - i) as nat) == 8 * pow8((depth - l) as nat));
        let t = leaf_total(can_divide, depth, i);
        let a = count_alive(can_divide, depth, i, pow8(i));
        let s = count_split(can_divide, depth, i, pow8(i));
        let f = count_leaf(can_divide, depth, i, pow8(i));
        let w = pow8((depth - l) as nat);
        assert(leaf_total(can_divide, depth, l) == t + f * (8 * w));
        assert(count_alive(can_divide, depth, l, pow8(l)) == 8 * s);
        assert(t + a * (8 * w) == pow8(depth));
        assert(a == s + f);
        assert(t + f * (8 * w) + (8 * s) * w == t + a * (8 * w)) by (nonlinear_arith)
            requires
                a == s + f,
        ;
    }
}

/// The keys of the leaves of level `l` whose code is below `n`.
spec fn leaf_keys_below<F: Fn(MortonCode) -> bool>(can_divide: F, depth: nat, l: nat, n: nat) -> Set<u64> {
    Set::new(
        |k: u64|
            exists|c: MortonCode|
                #[trigger] lod_leaf(can_divide, depth, c) && c.level_spec() == l && node_key(c) == k
                    && c.code_spec() < n,
    )
}

/// The leaves of level `l` with a code below `n` are finitely many, and
/// as many as the count says.
proof fn lemma_leaf_keys_below<F: Fn(MortonCode) -> bool>(can_divide: F, depth: nat, l: nat, n: nat)
    requires
        l <= depth,
        depth <= 21,
        n <= pow8(l),
    ensures
        leaf_keys_below(can_divide, depth, l, n).finite(),
        leaf_keys_below(can_divide, depth, l, n).len() == count_leaf(can_divide, depth, l, n),
    decreases n,
{
    let s = leaf_keys_below(can_divide, depth, l, n);
    if n == 0 {
        assert(s =~= Set::<u64>::empty());
    } else {
        let k = (n - 1) as nat;
        let prev = leaf_keys_below(can_divide, depth, l, k);
        lemma_leaf_keys_below(can_divide, depth, l, k);
        MortonCode::lemma_of_code(k, l);
        let c0 = MortonCode::of_code(k, l);
        assert(lod_leaf(can_divide, depth, c0) == (alive(can_divide, depth, l, k) && !divides(
            can_divide,
            depth,
            c0,
        )));
        if lod_leaf(can_divide, depth, c0) {
            assert forall|key: u64| s.contains(key) <==> prev.insert(node_key(c0)).contains(key) by {
                if s.contains(key) {
                    let c = choose|c: MortonCode|
                        #[trigger] lod_leaf(can_divide, depth, c) && c.level_spec() == l && node_key(c)
                            == key && c.code_spec() < n;
                    if c.code_spec() == k {
                        assert(c == MortonCode::of_code(c.code_spec(), c.level_spec()));
                    } else {
                        assert(prev.contains(key));
                    }
                }
                if prev.contains(key) {
                    let c = choose|c: MortonCode|
                        #[trigger] lod_leaf(can_divide, depth, c) && c.level_spec() == l && node_key(c)
                            == key && c.code_spec() < k;
                    assert(s.contains(key));
                }
                if key == node_key(c0) {
                    assert(s.contains(key));
                }
            }
            assert(s =~= prev.insert(node_key(c0)));
            if prev.contains(node_key(c0)) {
                let c = choose|c: MortonCode|
                    #[trigger] lod_leaf(can_divide, depth, c) && c.level_spec() == l && node_key(c)
                        == node_key(c0) && c.code_spec() < k;
                lemma_node_key_injective(c, c0);
            }
        } else {
            assert forall|key: u64| s.contains(key) <==> prev.contains(key) by {
                if s.contains(key) {
                    let c = choose|c: MortonCode|
                        #[trigger] lod_leaf(can_divide, depth, c) && c.level_spec() == l && node_key(c)
                            == key && c.code_spec() < n;
                    if c.code_spec() == k {
                        assert(c == MortonCode::of_code(c.code_spec(), c.level_spec()));
                    } else {
                        assert(prev.contains(key));
                    }
                }
                if prev.contains(key) {
                    let c = choose|c: MortonCode|
                        #[trigger] lod_leaf(can_divide, depth, c) && c.level_spec() == l && node_key(c)
                            == key && c.code_spec() < k;
                    assert(s.contains(key));
                }
            }
            assert(s =~= prev);
        }
    }
}

/// The leaf keys of a level are those of its leaves with codes of that
/// many digits.
proof fn lemma_leaf_keys_level<F: Fn(MortonCode) -> bool>(can_divide: F, depth: nat, l: nat)
    requires
        l <= depth,
        depth <= 21,
    ensures
        lod_leaf_keys(can_divide, depth, l).finite(),
        lod_leaf_keys(can_divide, depth, l).len() == count_leaf(can_divide, depth, l, pow8(l)),
{
    lemma_leaf_keys_below(can_divide, depth, l, pow8(l));
    assert(lod_leaf_keys(can_divide, depth, l) =~= leaf_keys_below(can_divide, depth, l, pow8(l)));
}

/// The weights of the leaves of the levels up to `l` are the counted ones.
proof fn lemma_weight_is_total<F: Fn(MortonCode) -> bool>(can_divide: F, depth: nat, l: nat)
    requires
        l <= depth + 1,
        depth <= 21,
    ensures
        lod_leaves_weight(can_divide, depth, l) == leaf_total(can_divide, depth, l),
    decreases l,
{
    if l > 0 {
        lemma_weight_is_total(can_divide, depth, (l - 1) as nat);
        lemma_leaf_keys_level(can_divide, depth, (l - 1) as nat);
    }
}

/// The leaves of an update whose depth is at most the deepest level tile
/// the root cell: each level up to the depth holds finitely many leaves and
/// the levels below it hold none, no leaf lies inside another, and the
/// leaves, each weighing `8^(depth - l)` at level `l`, weigh `8^depth`
/// together.
pub proof fn lemma_lod_leaves_weigh_root<F: Fn(MortonCode) -> bool>(can_divide: F, depth: nat)
    requires
        depth <= 21,
    ensures
        forall|l: nat| l <= depth ==> (#[trigger] lod_leaf_keys(can_divide, depth, l)).finite(),
        forall|l: nat| l > depth ==> #[trigger] lod_leaf_keys(can_divide, depth, l) == Set::<
            u64,
        >::empty(),
        forall|a: MortonCode, b: MortonCode|
            #![trigger lod_leaf(can_divide, depth, a), lod_leaf(can_divide, depth, b)]
            lod_leaf(can_divide, depth, a) && lod_leaf(can_divide, depth, b) && a.level_spec()
                < b.level_spec() ==> ancestor_up(b, (b.level_spec() - a.level_spec()) as nat) != a,
        lod_leaves_weight(can_divide, depth, depth + 1) == pow8(depth),
{
    assert forall|l: nat| l <= depth implies (#[trigger] lod_leaf_keys(can_divide, depth, l)).finite() by {
        lemma_leaf_keys_level(can_divide, depth, l);
    }
    assert forall|l: nat| l > depth implies #[trigger] lod_leaf_keys(can_divide, depth, l) == Set::<
        u64,
    >::empty() by {
        assert(lod_leaf_keys(can_divide, depth, l) =~= Set::<u64>::empty());
    }
    assert forall|a: MortonCode, b: MortonCode|
        #![trigger lod_leaf(can_divide, depth, a), lod_leaf(can_divide, depth, b)]
        lod_leaf(can_divide, depth, a) && lod_leaf(can_divide, depth, b) && a.level_spec()
            < b.level_spec() implies ancestor_up(b, (b.level_spec() - a.level_spec()) as nat) != a by {
        lemma_ancestors_divided_up(can_divide, depth, b, (b.level_spec() - a.level_spec()) as nat);
    }
    lemma_weight_is_total(can_divide, depth, depth + 1);
    lemma_leaf_total(can_divide, depth, depth);
    lemma_count_parts(can_divide, depth, depth, pow8(depth));
    lemma_count_split_deepest(can_divide, depth, pow8(depth));
    assert((depth - depth) as nat == 0);
    assert(pow8(0) == 1);
}

} // verus!

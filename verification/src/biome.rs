//! The biome of a voxel, chosen by the votes of its eight corners.
//!
//! A biome is held by its number among the flat terrain types. Whether a
//! type is a surface type is a table, `surface_types`, with one entry per
//! type. Where any corner has a surface type, only the corners with a
//! surface type vote; else every corner votes. The biome with the most votes
//! wins, the lowest number among those tied.
use vstd::prelude::*;

verus! {

/// How many of the first `n` corners have biome `b`.
pub open spec fn occurrences(biomes: Seq<u32>, b: nat, n: nat) -> nat
    decreases n,
{
    if n == 0 {
        0
    } else {
        occurrences(biomes, b, (n - 1) as nat) + if biomes[n - 1] == b {
            1nat
        } else {
            0nat
        }
    }
}

/// Whether one of the corners has a surface type.
pub open spec fn any_surface(biomes: Seq<u32>, surface_types: Seq<bool>) -> bool {
    exists|i: int| 0 <= i < biomes.len() && #[trigger] surface_types[biomes[i] as int]
}

/// Whether the corners of biome `b` vote: all do where no corner has a
/// surface type, else those of a surface type.
pub open spec fn votes_for(biomes: Seq<u32>, surface_types: Seq<bool>, b: nat) -> bool {
    !any_surface(biomes, surface_types) || surface_types[b as int]
}

/// The votes for biome `b` among the first `n` corners.
pub open spec fn votes_upto(biomes: Seq<u32>, surface_types: Seq<bool>, b: nat, n: nat) -> nat {
    if votes_for(biomes, surface_types, b) {
        occurrences(biomes, b, n)
    } else {
        0
    }
}

/// The votes for biome `b`.
pub open spec fn votes(biomes: Seq<u32>, surface_types: Seq<bool>, b: nat) -> nat {
    votes_upto(biomes, surface_types, b, biomes.len())
}

/// Whether `r` is the winner: a biome with votes, with as many as any, and
/// with more than every lower biome.
pub open spec fn is_voxel_biome(biomes: Seq<u32>, surface_types: Seq<bool>, r: nat) -> bool {
    &&& r < surface_types.len()
    &&& votes(biomes, surface_types, r) > 0
    &&& forall|b: nat| b < surface_types.len() ==> #[trigger] votes(biomes, surface_types, b) <= votes(biomes, surface_types, r)
    &&& forall|b: nat| b < r ==> #[trigger] votes(biomes, surface_types, b) < votes(biomes, surface_types, r)
}

proof fn lemma_occurrences_bound(biomes: Seq<u32>, b: nat, n: nat)
    ensures
        occurrences(biomes, b, n) <= n,
    decreases n,
{
    if n > 0 {
        lemma_occurrences_bound(biomes, b, (n - 1) as nat);
    }
}

/// A biome that occurs among the first `n` corners is the biome of one of
/// them.
proof fn lemma_occurrence_witness(biomes: Seq<u32>, b: nat, n: nat)
    requires
        occurrences(biomes, b, n) > 0,
    ensures
        exists|k: int| 0 <= k < n && biomes[k] == b,
    decreases n,
{
    if biomes[n - 1] != b {
        lemma_occurrence_witness(biomes, b, (n - 1) as nat);
    }
}

/// A corner among the first `n` gives its biome an occurrence.
proof fn lemma_occurs(biomes: Seq<u32>, i: nat, n: nat)
    requires
        i < n,
    ensures
        occurrences(biomes, biomes[i as int] as nat, n) >= 1,
    decreases n,
{
    if i < n - 1 {
        lemma_occurs(biomes, i, (n - 1) as nat);
    }
}

/// The biome of a voxel from those of its eight corners: the one with the
/// most votes, the lowest number among those tied.
pub fn select_voxel_biome(biomes: [u32; 8], surface_types: &[bool]) -> (r: u32)
    requires
        forall|i: int| 0 <= i < 8 ==> (biomes[i] as int) < surface_types@.len(),
    ensures
        is_voxel_biome(biomes@, surface_types@, r as nat),
{
    let ghost bs = biomes@;
    let ghost st = surface_types@;
    let mut any = false;
    let mut i: usize = 0;
    while i < 8
        invariant
            i <= 8,
            bs == biomes@,
            st == surface_types@,
            forall|k: int| 0 <= k < 8 ==> (biomes[k] as int) < surface_types@.len(),
            any == exists|k: int| 0 <= k < i && #[trigger] st[bs[k] as int],
        decreases 8 - i,
    {
        if surface_types[biomes[i] as usize] {
            any = true;
        }
        i = i + 1;
    }
    assert(any == any_surface(bs, st));
    let n = surface_types.len();
    let mut biome_count: Vec<u32> = Vec::new();
    while biome_count.len() < n
        invariant
            biome_count.len() <= n,
            n == surface_types@.len(),
            forall|b: int| 0 <= b < biome_count.len() ==> biome_count@[b] == 0,
        decreases n - biome_count.len(),
    {
        biome_count.push(0);
    }
    let mut i: usize = 0;
    while i < 8
        invariant
            i <= 8,
            bs == biomes@,
            st == surface_types@,
            n == st.len(),
            any == any_surface(bs, st),
            forall|k: int| 0 <= k < 8 ==> (biomes[k] as int) < surface_types@.len(),
            biome_count.len() == n,
            forall|b: int|
                0 <= b < n ==> #[trigger] biome_count@[b] == votes_upto(bs, st, b as nat, i as nat),
        decreases 8 - i,
    {
        let b = biomes[i] as usize;
        if !any || surface_types[b] {
            proof {
                lemma_occurrences_bound(bs, b as nat, i as nat);
            }
            let c = biome_count[b] + 1;
            biome_count.set(b, c);
        }
        i = i + 1;
    }
    // Overwritten by the first biome that has votes, which some corner gives.
    let mut terrain_type: u32 = 0;
    let mut max_count: u32 = 0;
    let mut t: usize = 0;
    while t < n
        invariant
            t <= n,
            bs == biomes@,
            st == surface_types@,
            n == st.len(),
            biome_count.len() == n,
            forall|b: int| 0 <= b < n ==> #[trigger] biome_count@[b] == votes(bs, st, b as nat),
            forall|b: nat| b < t ==> #[trigger] votes(bs, st, b) <= max_count,
            max_count > 0 ==> {
                &&& terrain_type < t
                &&& votes(bs, st, terrain_type as nat) == max_count
                &&& forall|b: nat| b < terrain_type ==> #[trigger] votes(bs, st, b) < max_count
            },
        decreases n - t,
    {
        if biome_count[t] > max_count {
            proof {
                assert(bs.len() == 8);
                assert(votes(bs, st, t as nat) > 0);
                lemma_occurrence_witness(bs, t as nat, 8);
            }
            max_count = biome_count[t];
            terrain_type = t as u32;
        }
        t = t + 1;
    }
    proof {
        let w: nat = if any {
            let k = choose|k: int| 0 <= k < 8 && #[trigger] st[bs[k] as int];
            lemma_occurs(bs, k as nat, 8);
            bs[k] as nat
        } else {
            lemma_occurs(bs, 0, 8);
            bs[0] as nat
        };
        assert(votes(bs, st, w) >= 1);
        assert(max_count > 0);
    }
    terrain_type
}

} // verus!

//! Morton codes of the cells of an LOD octree: a level and the interleaved
//! bits of the cell's grid coordinates at that level (three bits per level, x
//! lowest, the finest level lowest).
use vstd::prelude::*;
use vstd::arithmetic::power2::{pow2, lemma_pow2_unfold, lemma2_to64};
use crate::address::{pow8, path_coord, lemma_pow8_mono, lemma_pow8_is_pow2, lemma_path_coord_bound};
use crate::tables::{VertexIndex, SubNodeIndex, vertex_bit};
pub use crate::math::UVec3;

verus! {

/// The deepest level a Morton code holds: `3 * 21` bits fill 63 bits of a `u64`.
pub const MAX_LEVEL: u8 = 21;

/// The path whose coordinates at `k` levels are `x`, `y` and `z` (each below
/// `2^k`): their bits interleaved, the lowest bits in the lowest digit.
pub open spec fn interleave(x: nat, y: nat, z: nat, k: nat) -> nat
    decreases k,
{
    if k == 0 {
        0
    } else {
        interleave(x / 2, y / 2, z / 2, (k - 1) as nat) * 8 + (x % 2 + 2 * (y % 2) + 4 * (z % 2))
    }
}

/// The Morton code of an octree cell.
#[derive(Debug, Clone, Copy, PartialEq, Eq, Hash, Structural)]
pub struct MortonCode {
    code: u64,
    level: u8,
}

impl MortonCode {
    #[verifier::type_invariant]
    spec fn inv(self) -> bool {
        self.level <= 21 && self.code < pow8(self.level as nat)
    }

    /// The interleaved coordinate bits.
    pub closed spec fn code_spec(self) -> nat {
        self.code as nat
    }

    /// The level (depth) of the cell.
    pub closed spec fn level_spec(self) -> nat {
        self.level as nat
    }

    /// The level is at most 21 and the code has `level` digits.
    pub open spec fn wf(self) -> bool {
        self.level_spec() <= 21 && self.code_spec() < pow8(self.level_spec())
    }

    /// Two codes are equal exactly when their codes and levels are.
    pub proof fn lemma_view_eq(self, other: MortonCode)
        ensures
            (self == other) <==> (self.code_spec() == other.code_spec() && self.level_spec()
                == other.level_spec()),
    {
    }

    /// Every code meets the invariant.
    pub fn check_wf(&self)
        ensures
            self.wf(),
    {
        proof {
            use_type_invariant(self);
        }
    }

    /// The grid coordinate of the cell on `axis` at its level.
    pub open spec fn coord(self, axis: nat) -> nat {
        path_coord(self.code_spec(), self.level_spec(), axis)
    }

    /// The root cell.
    pub fn root() -> (r: MortonCode)
        ensures
            r == MortonCode::root_spec(),
            r.code_spec() == 0,
            r.level_spec() == 0,
            r.wf(),
    {
        MortonCode { code: 0, level: 0 }
    }

    /// The level of the cell.
    pub fn level(&self) -> (r: u8)
        ensures
            r == self.level_spec(),
            self.wf(),
    {
        proof {
            use_type_invariant(self);
        }
        self.level
    }

    /// The code of the cell at `level` with grid coordinates `xyz`.
    pub fn encode(xyz: UVec3, level: u8) -> (r: MortonCode)
        requires
            level <= MAX_LEVEL,
            xyz.x < pow2(level as nat),
            xyz.y < pow2(level as nat),
            xyz.z < pow2(level as nat),
        ensures
            r.wf(),
            r.level_spec() == level,
            r.code_spec() == interleave(xyz.x as nat, xyz.y as nat, xyz.z as nat, level as nat),
            r.coord(0) == xyz.x,
            r.coord(1) == xyz.y,
            r.coord(2) == xyz.z,
    {
        let code = interleave_bits(xyz.x, xyz.y, xyz.z, level);
        proof {
            lemma_interleave_coords(xyz.x as nat, xyz.y as nat, xyz.z as nat, level as nat);
        }
        MortonCode { code, level }
    }

    /// The grid coordinates of the cell at its level.
    pub fn decode(&self) -> (r: UVec3)
        ensures
            self.wf(),
            r.x == self.coord(0),
            r.y == self.coord(1),
            r.z == self.coord(2),
            r.x < pow2(self.level_spec()),
            r.y < pow2(self.level_spec()),
            r.z < pow2(self.level_spec()),
    {
        proof {
            use_type_invariant(self);
        }
        UVec3 {
            x: coord_of(self.code, self.level, 0),
            y: coord_of(self.code, self.level, 1),
            z: coord_of(self.code, self.level, 2),
        }
    }

    /// The parent cell; `None` for the root level.
    pub fn parent(&self) -> (r: Option<MortonCode>)
        ensures
            self.level_spec() == 0 ==> r is None,
            r matches Some(p) ==> p.wf(),
            self.level_spec() > 0 ==> (r matches Some(p) && p.code_spec() == self.code_spec() / 8
                && p.level_spec() == self.level_spec() - 1),
            self.level_spec() > 0 ==> r == Some(self.parent_spec()),
    {
        proof {
            use_type_invariant(self);
        }
        if self.level == 0 {
            None
        } else {
            Some(MortonCode { code: self.code / 8, level: self.level - 1 })
        }
    }

    /// The child cell `sub_node_index`; `None` at the deepest level.
    pub fn child(&self, sub_node_index: SubNodeIndex) -> (r: Option<MortonCode>)
        ensures
            self.level_spec() == 21 ==> r is None,
            r matches Some(c) ==> c.wf(),
            self.level_spec() < 21 ==> (r matches Some(c) && c.code_spec() == self.code_spec() * 8
                + sub_node_index.repr() && c.level_spec() == self.level_spec() + 1),
            self.level_spec() < 21 ==> r == Some(self.child_spec(sub_node_index.repr())),
    {
        proof {
            use_type_invariant(self);
        }
        if self.level >= MAX_LEVEL {
            None
        } else {
            proof {
                lemma_pow8_mono(self.level as nat, 20);
                lemma_pow8_is_pow2(20);
                lemma2_to64();
                vstd::arithmetic::power2::lemma_pow2_adds(32, 28);
                vstd::arithmetic::power2::lemma_pow2_adds(28, 32);
                assert(pow8(self.level as nat + 1) == 8 * pow8(self.level as nat));
                assert(pow2(60) == 0x1000_0000_0000_0000) by {
                    vstd::arithmetic::power2::lemma_pow2_adds(30, 30);
                    vstd::arithmetic::power2::lemma_pow2_adds(15, 15);
                }
            }
            Some(
                MortonCode {
                    code: self.code * 8 + sub_node_index.to_index() as u64,
                    level: self.level + 1,
                },
            )
        }
    }
}

impl MortonCode {
    /// The root cell.
    pub closed spec fn root_spec() -> MortonCode {
        MortonCode { code: 0, level: 0 }
    }

    /// The parent cell (of a cell below the root level).
    pub closed spec fn parent_spec(self) -> MortonCode {
        MortonCode { code: self.code / 8, level: (self.level - 1) as u8 }
    }

    /// The child cell at `digit` (of a cell above the deepest level).
    pub closed spec fn child_spec(self, digit: nat) -> MortonCode {
        MortonCode { code: (self.code * 8 + digit) as u64, level: (self.level + 1) as u8 }
    }

    /// The cell at `level` with grid coordinates `x`, `y` and `z`.
    pub closed spec fn cell_at(level: nat, x: nat, y: nat, z: nat) -> MortonCode {
        MortonCode { code: interleave(x, y, z, level) as u64, level: level as u8 }
    }

    /// The cell of `level` whose code is `code`.
    pub closed spec fn of_code(code: nat, level: nat) -> MortonCode {
        MortonCode { code: code as u64, level: level as u8 }
    }

    /// The cell of a level with a code of that many digits is a valid cell
    /// with that code and level, and every valid cell is the cell of its code
    /// and level.
    pub proof fn lemma_of_code(code: nat, level: nat)
        requires
            level <= 21,
            code < pow8(level),
        ensures
            MortonCode::of_code(code, level).wf(),
            MortonCode::of_code(code, level).code_spec() == code,
            MortonCode::of_code(code, level).level_spec() == level,
            forall|c: MortonCode| c.wf() ==> c == #[trigger] MortonCode::of_code(c.code_spec(), c.level_spec()),
    {
        lemma_pow8_mono(level, 21);
        lemma_pow8_is_pow2(21);
        lemma2_to64();
        vstd::arithmetic::power2::lemma_pow2_adds(32, 31);
    }

    /// The root is a valid cell of level 0.
    pub proof fn lemma_root_spec()
        ensures
            MortonCode::root_spec().wf(),
            MortonCode::root_spec().level_spec() == 0,
            MortonCode::root_spec().code_spec() == 0,
    {
        assert(pow8(0) == 1);
    }

    /// The parent of a cell below the root level is the cell one level up whose
    /// code drops the last digit.
    pub proof fn lemma_parent_spec(self)
        requires
            self.wf(),
            self.level_spec() > 0,
        ensures
            self.parent_spec().wf(),
            self.parent_spec().level_spec() == self.level_spec() - 1,
            self.parent_spec().code_spec() == self.code_spec() / 8,
    {
        crate::address::lemma_pow8_positive((self.level - 1) as nat);
        assert(pow8(self.level as nat) == 8 * pow8((self.level - 1) as nat));
    }

    /// A child of a cell lies one level down.
    pub proof fn lemma_child_spec_level(self, digit: nat)
        requires
            self.level_spec() < 255,
        ensures
            self.child_spec(digit).level_spec() == self.level_spec() + 1,
    {
    }

    /// The one cell of the root level is the root.
    pub proof fn lemma_level_zero_is_root(self)
        requires
            self.wf(),
            self.level_spec() == 0,
        ensures
            self == MortonCode::root_spec(),
    {
    }

    /// A child of a cell above the deepest level is a cell one level down
    /// whose parent is the cell.
    pub proof fn lemma_child_parent(self, digit: nat)
        requires
            self.wf(),
            self.level_spec() < 21,
            digit < 8,
        ensures
            self.child_spec(digit).wf(),
            self.child_spec(digit).level_spec() == self.level_spec() + 1,
            self.child_spec(digit).code_spec() == self.code_spec() * 8 + digit,
            self.child_spec(digit).parent_spec() == self,
    {
        lemma_pow8_mono(self.level_spec() + 1, 21);
        lemma_pow8_is_pow2(21);
        lemma2_to64();
        vstd::arithmetic::power2::lemma_pow2_adds(32, 31);
        assert(pow8(self.level_spec() + 1) == 8 * pow8(self.level_spec()));
    }

    /// A cell one level down whose code appends `digit` is the child at `digit`.
    pub proof fn lemma_child_spec(self, c: MortonCode, digit: nat)
        requires
            c.level_spec() == self.level_spec() + 1,
            c.code_spec() == self.code_spec() * 8 + digit,
        ensures
            c == self.child_spec(digit),
    {
    }

    /// The cell at a level and coordinates in its grid is a cell of that
    /// level with those coordinates.
    pub proof fn lemma_cell_at_wf(level: nat, x: nat, y: nat, z: nat)
        requires
            level <= 21,
            x < pow2(level),
            y < pow2(level),
            z < pow2(level),
        ensures
            MortonCode::cell_at(level, x, y, z).wf(),
            MortonCode::cell_at(level, x, y, z).level_spec() == level,
            MortonCode::cell_at(level, x, y, z).coord(0) == x,
            MortonCode::cell_at(level, x, y, z).coord(1) == y,
            MortonCode::cell_at(level, x, y, z).coord(2) == z,
    {
        lemma_interleave_coords(x, y, z, level);
        lemma_pow8_mono(level, 21);
        lemma_pow8_is_pow2(21);
        lemma2_to64();
        vstd::arithmetic::power2::lemma_pow2_adds(32, 31);
    }

    /// A cell is the cell at its level and its coordinates.
    pub proof fn lemma_cell_at(self)
        requires
            self.wf(),
        ensures
            self == MortonCode::cell_at(self.level_spec(), self.coord(0), self.coord(1), self.coord(2)),
    {
        crate::morton_code_neighbor::lemma_encode_decode(self);
    }
}

/// The key that stands for a cell in a set of cells: its code under a leading
/// one bit at three times its level, so that cells of different levels never
/// share a key.
pub open spec fn node_key(c: MortonCode) -> u64 {
    (pow8(c.level_spec()) + c.code_spec()) as u64
}

/// The key of a cell lies in `[8^level, 2 * 8^level)`.
pub proof fn lemma_node_key_range(c: MortonCode)
    requires
        c.wf(),
    ensures
        pow8(c.level_spec()) <= node_key(c) < 2 * pow8(c.level_spec()),
        node_key(c) == pow8(c.level_spec()) + c.code_spec(),
{
    lemma_pow8_mono(c.level_spec(), 21);
    lemma_pow8_is_pow2(21);
    lemma2_to64();
    vstd::arithmetic::power2::lemma_pow2_adds(32, 31);
}

/// Two cells with one key are one cell.
pub proof fn lemma_node_key_injective(a: MortonCode, b: MortonCode)
    requires
        a.wf(),
        b.wf(),
        node_key(a) == node_key(b),
    ensures
        a == b,
{
    lemma_node_key_range(a);
    lemma_node_key_range(b);
    if a.level_spec() < b.level_spec() {
        lemma_pow8_mono(a.level_spec() + 1, b.level_spec());
        assert(pow8(a.level_spec() + 1) == 8 * pow8(a.level_spec()));
    } else if b.level_spec() < a.level_spec() {
        lemma_pow8_mono(b.level_spec() + 1, a.level_spec());
        assert(pow8(b.level_spec() + 1) == 8 * pow8(b.level_spec()));
    }
    a.lemma_view_eq(b);
}

impl MortonCode {
    /// The key that stands for the cell in a set of cells.
    pub fn key(&self) -> (r: u64)
        ensures
            r == node_key(*self),
            self.wf(),
    {
        proof {
            use_type_invariant(self);
            lemma_node_key_range(*self);
            lemma_pow8_is_pow2(self.level as nat);
            lemma_pow8_mono(self.level as nat, 21);
            lemma_pow8_is_pow2(21);
            lemma2_to64();
            vstd::arithmetic::power2::lemma_pow2_adds(32, 31);
            vstd::bits::lemma_u64_shl_is_mul(1, (3 * self.level) as u64);
        }
        let shift = 3 * self.level as u64;
        (1u64 << shift) + self.code
    }

    /// The cell that `key` stands for, if any.
    pub fn from_key(key: u64) -> (r: Option<MortonCode>)
        ensures
            r matches Some(c) ==> c.wf() && node_key(c) == key,
            r is None ==> forall|c: MortonCode| c.wf() ==> node_key(c) != key,
    {
        let mut level: u8 = 22;
        while level > 0
            invariant
                level <= 22,
                forall|c: MortonCode| c.wf() && c.level_spec() >= level ==> node_key(c) != key,
            decreases level,
        {
            level = level - 1;
            proof {
                lemma_pow8_is_pow2(level as nat);
                lemma_pow8_mono(level as nat, 21);
                lemma_pow8_is_pow2(21);
                lemma2_to64();
                vstd::arithmetic::power2::lemma_pow2_adds(32, 31);
                vstd::bits::lemma_u64_shl_is_mul(1, (3 * level) as u64);
            }
            let low = 1u64 << (3 * level as u64);
            if key >= low && key - low < low {
                let c = MortonCode { code: key - low, level };
                proof {
                    lemma_node_key_range(c);
                }
                return Some(c);
            }
            proof {
                assert forall|c: MortonCode| c.wf() && c.level_spec() >= level implies node_key(c)
                    != key by {
                    lemma_node_key_range(c);
                }
            }
        }
        None
    }
}


/// The code of the ancestor of `c` at `level` (not below `c`).
pub open spec fn code_on_level(c: MortonCode, level: nat) -> nat {
    c.code_spec() / pow8((c.level_spec() - level) as nat)
}

impl MortonCode {
    /// The ancestor of the cell at `level`; `None` below the cell's level.
    pub fn morton_code_on_level(&self, level: u8) -> (r: Option<MortonCode>)
        ensures
            level > self.level_spec() ==> r is None,
            level <= self.level_spec() ==> (r matches Some(a) && a.wf() && a.level_spec() == level
                && a.code_spec() == code_on_level(*self, level as nat)),
    {
        proof {
            use_type_invariant(self);
        }
        if level > self.level {
            return None;
        }
        let shift = 3 * (self.level - level) as u64;
        proof {
            let d = (self.level - level) as nat;
            crate::address::lemma_shr_is_div_pow8(self.code, d);
            crate::address::lemma_pow8_adds(level as nat, d);
            lemma_pow8_is_pow2(d);
            crate::address::lemma_pow8_positive(d);
            vstd::arithmetic::div_mod::lemma_multiply_divide_lt(
                self.code as int,
                pow8(d) as int,
                pow8(level as nat) as int,
            );
            assert(pow8(d) * pow8(level as nat) == pow8(level as nat) * pow8(d)) by (nonlinear_arith);
        }
        Some(MortonCode { code: self.code >> shift, level })
    }
}


impl MortonCode {
    /// Which child of its parent the cell is: the last digit of its code.
    pub fn get_subnode_index(&self) -> (r: VertexIndex)
        ensures
            r.repr() == self.code_spec() % 8,
    {
        let d = (self.code % 8) as usize;
        match VertexIndex::from_repr(d) {
            Some(v) => v,
            None => VertexIndex::X0Y0Z0,
        }
    }
}

/// `interleave(x, y, z, k)` computed digit by digit, from the lowest bits up.
fn interleave_bits(x: u32, y: u32, z: u32, k: u8) -> (r: u64)
    requires
        k <= 21,
        x < pow2(k as nat),
        y < pow2(k as nat),
        z < pow2(k as nat),
    ensures
        r == interleave(x as nat, y as nat, z as nat, k as nat),
        r < pow8(k as nat),
    decreases k,
{
    if k == 0 {
        0
    } else {
        proof {
            lemma_pow2_unfold(k as nat);
            lemma_pow8_mono(k as nat, 21);
            lemma_pow8_is_pow2(21);
            lemma2_to64();
            vstd::arithmetic::power2::lemma_pow2_adds(32, 31);
        }
        let upper = interleave_bits(x / 2, y / 2, z / 2, k - 1);
        proof {
            assert(pow8(k as nat) == 8 * pow8((k - 1) as nat));
            assert(pow2(63) <= u64::MAX);
        }
        upper * 8 + (x % 2 + 2 * (y % 2) + 4 * (z % 2)) as u64
    }
}

/// The coordinate on `axis` (0, 1 or 2) of path `code` at `k` levels.
fn coord_of(code: u64, k: u8, axis: u8) -> (r: u32)
    requires
        k <= 21,
    ensures
        r == path_coord(code as nat, k as nat, axis as nat),
        r < pow2(k as nat),
    decreases k,
{
    proof {
        lemma_path_coord_bound(code as nat, k as nat, axis as nat);
    }
    if k == 0 {
        0
    } else {
        let upper = coord_of(code / 8, k - 1, axis);
        let digit = code % 8;
        let bit = if axis == 0 {
            digit % 2
        } else if axis == 1 {
            (digit / 2) % 2
        } else {
            (digit / 4) % 2
        };
        proof {
            lemma_pow2_unfold(k as nat);
            vstd::arithmetic::power2::lemma_pow2_strictly_increases(k as nat, 32);
            lemma2_to64();
        }
        2 * upper + bit as u32
    }
}

/// The coordinates of an interleaved path are the interleaved numbers.
pub proof fn lemma_interleave_coords(x: nat, y: nat, z: nat, k: nat)
    requires
        x < pow2(k),
        y < pow2(k),
        z < pow2(k),
    ensures
        interleave(x, y, z, k) < pow8(k),
        path_coord(interleave(x, y, z, k), k, 0) == x,
        path_coord(interleave(x, y, z, k), k, 1) == y,
        path_coord(interleave(x, y, z, k), k, 2) == z,
    decreases k,
{
    lemma2_to64();
    if k > 0 {
        lemma_pow2_unfold(k);
        lemma_interleave_coords(x / 2, y / 2, z / 2, (k - 1) as nat);
        let up = interleave(x / 2, y / 2, z / 2, (k - 1) as nat);
        let digit = x % 2 + 2 * (y % 2) + 4 * (z % 2);
        assert((up * 8 + digit) / 8 == up);
        assert((up * 8 + digit) % 8 == digit);
        assert(vertex_bit(digit, 0) == x % 2);
        assert(vertex_bit(digit, 1) == y % 2);
        assert(vertex_bit(digit, 2) == z % 2);
    }
}

} // verus!

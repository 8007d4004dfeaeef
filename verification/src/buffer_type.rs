//! Records that the GPU mesh pass reads back: vertex information with its
//! packed per-voxel bytes, and vertex and index counts.
use vstd::prelude::*;
use crate::math::{UVec2, UVec4};
use crate::biome::{select_voxel_biome, is_voxel_biome};

verus! {

/// Which side of the isosurface a voxel corner lies on.
#[derive(Debug, Clone, Copy, PartialEq, Eq, Hash, Structural)]
pub enum IsosurfaceSide {
    Inside,
    Outside,
}

/// `true` is the outside, `false` the inside.
pub open spec fn side_of(outside: bool) -> IsosurfaceSide {
    if outside {
        IsosurfaceSide::Outside
    } else {
        IsosurfaceSide::Inside
    }
}

impl From<bool> for IsosurfaceSide {
    fn from(value: bool) -> (r: IsosurfaceSide) {
        if value {
            IsosurfaceSide::Outside
        } else {
            IsosurfaceSide::Inside
        }
    }
}

impl vstd::std_specs::convert::FromSpecImpl<bool> for IsosurfaceSide {
    open spec fn obeys_from_spec() -> bool {
        true
    }

    open spec fn from_spec(value: bool) -> IsosurfaceSide {
        side_of(value)
    }
}

/// The integer part of a vertex record: the vertex's voxel coordinates in
/// the chunk, and one byte per corner of its voxel (biome and side), four
/// bytes to a `u32`, lowest byte first. The float position and normal of the
/// record are not read here.
#[derive(Debug, Clone, Copy, PartialEq, Eq, Structural)]
pub struct TerrainChunkVertexInfo {
    pub vertex_local_coord: UVec4,
    pub voxel_biome: UVec2,
    pub voxel_side: UVec2,
}

/// Byte `i` (lowest first) of `value`.
pub open spec fn byte_of(value: u32, i: nat) -> u32 {
    ((value as nat / if i == 0 {
        1nat
    } else if i == 1 {
        0x100nat
    } else if i == 2 {
        0x1_0000nat
    } else {
        0x100_0000nat
    }) % 0x100) as u32
}

impl TerrainChunkVertexInfo {
    /// Whether the vertex's voxel touches a face of the chunk of `voxel_num`
    /// voxels per side.
    pub fn is_on_border(&self, voxel_num: u32) -> (r: bool)
        requires
            voxel_num > 0 || self.vertex_local_coord.x == 0 || self.vertex_local_coord.y == 0
                || self.vertex_local_coord.z == 0,
        ensures
            r == (self.vertex_local_coord.x == 0 || self.vertex_local_coord.y == 0
                || self.vertex_local_coord.z == 0 || self.vertex_local_coord.x == voxel_num - 1
                || self.vertex_local_coord.y == voxel_num - 1 || self.vertex_local_coord.z
                == voxel_num - 1),
    {
        self.vertex_local_coord.x == 0 || self.vertex_local_coord.y == 0
            || self.vertex_local_coord.z == 0 || self.vertex_local_coord.x == voxel_num - 1
            || self.vertex_local_coord.y == voxel_num - 1 || self.vertex_local_coord.z == voxel_num
            - 1
    }

    /// The four bytes of `value`, lowest first.
    pub fn unpack_u32(value: u32) -> (r: [u32; 4])
        ensures
            r@ == seq![byte_of(value, 0), byte_of(value, 1), byte_of(value, 2), byte_of(value, 3)],
    {
        let r: [u32; 4] = [
            value & 0x000000FF,
            (value & 0x0000FF00) >> 8u32,
            (value & 0x00FF0000) >> 16u32,
            (value & 0xFF000000) >> 24u32,
        ];
        assert(value & 0x000000FF == value % 0x100) by (bit_vector);
        assert((value & 0x0000FF00) >> 8u32 == (value / 0x100) % 0x100) by (bit_vector);
        assert((value & 0x00FF0000) >> 16u32 == (value / 0x1_0000) % 0x100) by (bit_vector);
        assert((value & 0xFF000000) >> 24u32 == (value / 0x100_0000) % 0x100) by (bit_vector);
        assert(r@ =~= seq![byte_of(value, 0), byte_of(value, 1), byte_of(value, 2), byte_of(value, 3)]);
        r
    }

    /// The side of each of the eight corners of the vertex's voxel: a nonzero
    /// byte is the outside; bytes of `voxel_side.x` first, then of `voxel_side.y`.
    pub fn get_voxel_side(&self) -> (r: [IsosurfaceSide; 8])
        ensures
            forall|i: int|
                0 <= i < 4 ==> #[trigger] r[i] == side_of(byte_of(self.voxel_side.x, i as nat) > 0),
            forall|i: int|
                4 <= i < 8 ==> #[trigger] r[i] == side_of(
                    byte_of(self.voxel_side.y, (i - 4) as nat) > 0,
                ),
    {
        let x = TerrainChunkVertexInfo::unpack_u32(self.voxel_side.x);
        let y = TerrainChunkVertexInfo::unpack_u32(self.voxel_side.y);
        let r = [
            IsosurfaceSide::from(x[0] > 0),
            IsosurfaceSide::from(x[1] > 0),
            IsosurfaceSide::from(x[2] > 0),
            IsosurfaceSide::from(x[3] > 0),
            IsosurfaceSide::from(y[0] > 0),
            IsosurfaceSide::from(y[1] > 0),
            IsosurfaceSide::from(y[2] > 0),
            IsosurfaceSide::from(y[3] > 0),
        ];
        assert(x@[0] == byte_of(self.voxel_side.x, 0) && x@[1] == byte_of(self.voxel_side.x, 1)
            && x@[2] == byte_of(self.voxel_side.x, 2) && x@[3] == byte_of(self.voxel_side.x, 3));
        assert(y@[0] == byte_of(self.voxel_side.y, 0) && y@[1] == byte_of(self.voxel_side.y, 1)
            && y@[2] == byte_of(self.voxel_side.y, 2) && y@[3] == byte_of(self.voxel_side.y, 3));
        r
    }

    /// The biome numbers of the eight corners of the vertex's voxel: the
    /// bytes of `voxel_biome.x`, then those of `voxel_biome.y`.
    pub open spec fn voxel_biome_spec(self) -> Seq<u32> {
        seq![
            byte_of(self.voxel_biome.x, 0),
            byte_of(self.voxel_biome.x, 1),
            byte_of(self.voxel_biome.x, 2),
            byte_of(self.voxel_biome.x, 3),
            byte_of(self.voxel_biome.y, 0),
            byte_of(self.voxel_biome.y, 1),
            byte_of(self.voxel_biome.y, 2),
            byte_of(self.voxel_biome.y, 3),
        ]
    }

    /// The biome number of each of the eight corners of the vertex's voxel.
    pub fn get_voxel_biome(&self) -> (r: [u32; 8])
        ensures
            r@ == self.voxel_biome_spec(),
    {
        let x = TerrainChunkVertexInfo::unpack_u32(self.voxel_biome.x);
        let y = TerrainChunkVertexInfo::unpack_u32(self.voxel_biome.y);
        let r = [x[0], x[1], x[2], x[3], y[0], y[1], y[2], y[3]];
        assert(r@ =~= self.voxel_biome_spec());
        r
    }

    /// The biome of the vertex: the one its voxel's corners vote for, where
    /// `surface_types` tells of each biome whether it is a surface type.
    pub fn get_vertex_biome(&self, surface_types: &[bool]) -> (r: u32)
        requires
            forall|i: int| 0 <= i < 8 ==> (#[trigger] self.voxel_biome_spec()[i] as int) < surface_types@.len(),
        ensures
            is_voxel_biome(self.voxel_biome_spec(), surface_types@, r as nat),
    {
        let biomes = self.get_voxel_biome();
        select_voxel_biome(biomes, surface_types)
    }
}

/// Number of vertices and of indices of a chunk's mesh.
#[derive(Debug, Default, Clone, Copy, PartialEq, Eq, Structural)]
pub struct TerrainChunkVerticesIndicesCount {
    pub vertices_count: u32,
    pub indices_count: u32,
}

/// The index buffer of a chunk's mesh.
pub struct TerrainChunkMeshIndicesVec {
    pub indices: Vec<u32>,
}

/// For each voxel, the index of its vertex in the vertex buffer.
pub struct TerrainChunkMeshVertexMapVec {
    pub vertex_map: Vec<u32>,
}

/// The vertex and index counts of several chunks.
pub struct TerrainChunkVerticesIndicesCountVec {
    pub vertices_indices_count: Vec<TerrainChunkVerticesIndicesCount>,
}

} // verus!

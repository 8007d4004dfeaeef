//! The logic of a voxel terrain: the vertex, edge and face tables of a
//! cube, packed octree node addresses with their neighbour walks, Morton
//! codes of octree cells, the level-of-detail octree and its updates and
//! neighbour searches, the octree that dual contouring builds, simplifies and
//! walks, and the index passes that stitch the seams between chunks.
pub mod address;
pub mod biome;
pub mod buffer_type;
pub mod coord_address;
pub mod csg;
pub mod dc_octree;
pub mod dc_tables;
pub mod dual_contouring;
pub mod lod_octree;
pub mod lod_weight;
pub mod math;
pub mod morton_code;
pub mod morton_code_neighbor;
pub mod neighbor_parts;
pub mod neighbor_query;
pub mod neighbor_touch;
pub mod seam_connect;
pub mod seam_indices;
pub mod simplify;
pub mod tables;
pub mod visit_order;

use vstd::prelude::*;

verus! {

} // verus!

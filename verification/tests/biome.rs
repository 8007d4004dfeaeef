use atom_terrain::biome::select_voxel_biome;
use atom_terrain::buffer_type::TerrainChunkVertexInfo;
use atom_terrain::math::{UVec2, UVec4};

#[test]
fn surface_corners_alone_vote() {
    let surface = [false, true, true, false];
    assert_eq!(select_voxel_biome([0, 0, 0, 0, 0, 1, 2, 2], &surface), 2);
}

#[test]
fn every_corner_votes_without_a_surface_type() {
    let surface = [false, false, false, false];
    assert_eq!(select_voxel_biome([3, 3, 0, 0, 1, 1, 1, 2], &surface), 1);
}

#[test]
fn a_tie_goes_to_the_lowest_biome() {
    let surface = [false, false, false, false];
    assert_eq!(select_voxel_biome([3, 3, 3, 3, 0, 0, 0, 0], &surface), 0);
    let surface = [true, true, true, true];
    assert_eq!(select_voxel_biome([2, 1, 2, 1, 3, 3, 3, 0], &surface), 3);
}

#[test]
fn vertex_biome_from_packed_corners() {
    let info = TerrainChunkVertexInfo {
        vertex_local_coord: UVec4::new(1, 2, 3, 0),
        voxel_biome: UVec2::new(0x0001_0202, 0x0200_0000),
        voxel_side: UVec2::new(0, 0),
    };
    assert_eq!(info.get_voxel_biome(), [2, 2, 1, 0, 0, 0, 0, 2]);
    let surface = [false, true, true, false];
    assert_eq!(info.get_vertex_biome(&surface), 2);
    let surface = [false, false, false, false];
    assert_eq!(info.get_vertex_biome(&surface), 0);
}

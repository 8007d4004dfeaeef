use atom_terrain::buffer_type::{IsosurfaceSide, TerrainChunkVertexInfo};
use atom_terrain::math::{UVec2, UVec4};
use atom_terrain::tables::{
    edge_vertex_pairs, get_axis_value, neighbor_node_in_edge, neighbor_node_in_vertex,
    neighbour_address_table, subnode_in_face, AxisType, AxisValue, EdgeIndex, FaceIndex,
    VertexIndex,
};

#[test]
fn test_unpack_u32() {
    let value = 1 + (1 << 8) + (1 << 16) + (1 << 24);
    let result = TerrainChunkVertexInfo::unpack_u32(value);
    assert_eq!(result, [1, 1, 1, 1]);

    let value = 1 + (1 << 8) + (1 << 24);
    let result = TerrainChunkVertexInfo::unpack_u32(value);
    assert_eq!(result, [1, 1, 0, 1]);
}

#[test]
fn unpack_u32_byte_order() {
    assert_eq!(TerrainChunkVertexInfo::unpack_u32(0xA1B2C3D4), [0xD4, 0xC3, 0xB2, 0xA1]);
}

#[test]
fn voxel_sides_from_bytes() {
    let info = TerrainChunkVertexInfo {
        vertex_local_coord: UVec4::new(1, 2, 3, 0),
        voxel_biome: UVec2::new(0, 0),
        voxel_side: UVec2::new(0x0100_0200, 0x0000_0003),
    };
    let (inside, outside) = (IsosurfaceSide::Inside, IsosurfaceSide::Outside);
    assert_eq!(
        info.get_voxel_side(),
        [inside, outside, inside, outside, outside, inside, inside, inside]
    );
}

#[test]
fn border_of_chunk() {
    let info = |x, y, z| TerrainChunkVertexInfo {
        vertex_local_coord: UVec4::new(x, y, z, 0),
        voxel_biome: UVec2::new(0, 0),
        voxel_side: UVec2::new(0, 0),
    };
    assert!(info(0, 3, 3).is_on_border(8));
    assert!(info(3, 7, 3).is_on_border(8));
    assert!(!info(3, 6, 3).is_on_border(8));
    assert!(info(3, 3, 0).is_on_border(0));
}

#[test]
fn axis_value_numbers_vertices() {
    assert_eq!(get_axis_value(AxisValue::Zero, AxisValue::Zero, AxisValue::Zero), 0);
    assert_eq!(get_axis_value(AxisValue::One, AxisValue::Zero, AxisValue::One), 5);
    assert_eq!(get_axis_value(AxisValue::One, AxisValue::One, AxisValue::One), 7);
    assert_eq!(VertexIndex::from_repr(6), Some(VertexIndex::X0Y1Z1));
    assert_eq!(VertexIndex::from_repr(8), None);
    assert_eq!(VertexIndex::X1Y0Z1.to_array(), [1, 0, 1]);
    assert_eq!(AxisType::from_repr(2), Some(AxisType::ZAxis));
    assert_eq!(AxisType::YAxis.to_index(), 1);
}

#[test]
fn tables_agree_with_geometry() {
    assert_eq!(
        neighbour_address_table(FaceIndex::Left, VertexIndex::X0Y0Z0),
        (VertexIndex::X1Y0Z0, false)
    );
    assert_eq!(
        neighbour_address_table(FaceIndex::Front, VertexIndex::X1Y1Z0),
        (VertexIndex::X1Y1Z1, true)
    );
    assert_eq!(
        subnode_in_face(FaceIndex::Back),
        [VertexIndex::X0Y0Z0, VertexIndex::X1Y0Z0, VertexIndex::X0Y1Z0, VertexIndex::X1Y1Z0]
    );
    assert_eq!(
        edge_vertex_pairs(EdgeIndex::ZAxisX0Y1),
        [VertexIndex::X0Y1Z0, VertexIndex::X0Y1Z1]
    );
    assert_eq!(neighbor_node_in_edge(EdgeIndex::XAxisY1Z1), [FaceIndex::Top, FaceIndex::Front]);
    assert_eq!(
        neighbor_node_in_vertex(VertexIndex::X1Y0Z0),
        [FaceIndex::Right, FaceIndex::Bottom, FaceIndex::Back]
    );
}

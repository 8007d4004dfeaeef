use std::collections::HashMap;

use atom_terrain::buffer_type::IsosurfaceSide;
use atom_terrain::dc_octree::{Node, NodeType, Octree, OctreeLevel};
use atom_terrain::math::UVec3;
use atom_terrain::morton_code::MortonCode;
use atom_terrain::seam_connect::{connect_x, connect_y, connect_z, seam_connect, SeamConnectData};

use IsosurfaceSide::{Inside, Outside};

fn cell(x: u32, y: u32, z: u32) -> MortonCode {
    MortonCode::encode(UVec3::new(x, y, z), 2)
}

fn leaf(code: MortonCode, sides: [IsosurfaceSide; 8]) -> Node {
    let mut node = Node::new(NodeType::Leaf, code);
    node.vertices_side_types = sides;
    node
}

/// A level holding leaves at `cells`, every corner on `side`, and a vertex
/// id for each leaf: its place in `cells` plus 10.
fn level_and_ids(cells: &[MortonCode], side: IsosurfaceSide) -> (OctreeLevel, HashMap<u64, u32>) {
    let mut level = OctreeLevel::default();
    let mut ids = HashMap::new();
    for (i, c) in cells.iter().enumerate() {
        level.address_node_map.insert(c.key(), leaf(*c, [side; 8]));
        ids.insert(c.key(), i as u32 + 10);
    }
    (level, ids)
}

fn data_with(ids: HashMap<u64, u32>) -> SeamConnectData {
    SeamConnectData {
        indices: Vec::new(),
        address_vertex_id_map: ids,
    }
}

#[test]
fn test_connect_x_four_nodes() {
    // The leaf, its front (z + 1), front-top (y + 1, z + 1) and top (y + 1)
    // neighbours.
    let cells = [cell(1, 1, 1), cell(1, 1, 2), cell(1, 2, 2), cell(1, 2, 1)];
    let (level, ids) = level_and_ids(&cells, Inside);
    let mut data = data_with(ids.clone());
    let node_0 = level.address_node_map[&cells[0].key()];
    connect_x(cells[0], &node_0, &level, &mut data);
    assert_eq!(data.indices, vec![10, 11, 12, 10, 12, 13]);
    assert_eq!(data.address_vertex_id_map, ids);

    let (level, ids) = level_and_ids(&cells, Outside);
    let mut data = data_with(ids);
    let node_0 = level.address_node_map[&cells[0].key()];
    connect_x(cells[0], &node_0, &level, &mut data);
    assert_eq!(data.indices, vec![10, 12, 11, 10, 13, 12]);
}

#[test]
fn test_connect_x_three_nodes() {
    // No front-top neighbour: one triangle over the leaf, front and top.
    let cells = [cell(1, 1, 1), cell(1, 1, 2), cell(1, 2, 1)];
    let (level, ids) = level_and_ids(&cells, Inside);
    let mut data = data_with(ids);
    let node_0 = level.address_node_map[&cells[0].key()];
    connect_x(cells[0], &node_0, &level, &mut data);
    assert_eq!(data.indices, vec![10, 11, 12]);
}

#[test]
fn test_connect_x_too_few_nodes() {
    let cells = [cell(1, 1, 1), cell(1, 1, 2)];
    let (level, ids) = level_and_ids(&cells, Inside);
    let mut data = data_with(ids);
    let node_0 = level.address_node_map[&cells[0].key()];
    connect_x(cells[0], &node_0, &level, &mut data);
    assert!(data.indices.is_empty());
}

#[test]
fn test_connect_x_at_the_grid_edge() {
    // The leaf at the far corner of the grid has no neighbours beyond it.
    let cells = [cell(3, 3, 3), cell(3, 2, 3), cell(2, 3, 3)];
    let (level, ids) = level_and_ids(&cells, Inside);
    let mut data = data_with(ids);
    let node_0 = level.address_node_map[&cells[0].key()];
    connect_x(cells[0], &node_0, &level, &mut data);
    assert!(data.indices.is_empty());
}

#[test]
fn test_connect_y_and_z() {
    // y: right (x + 1), right-front (x + 1, z + 1), front (z + 1).
    let cells = [cell(0, 0, 0), cell(1, 0, 0), cell(1, 0, 1), cell(0, 0, 1)];
    let (level, ids) = level_and_ids(&cells, Inside);
    let mut data = data_with(ids);
    let node_0 = level.address_node_map[&cells[0].key()];
    connect_y(cells[0], &node_0, &level, &mut data);
    assert_eq!(data.indices, vec![10, 11, 12, 10, 12, 13]);

    // z: right (x + 1), right-top (x + 1, y + 1), top (y + 1); the winding
    // follows corner 3.
    let cells = [cell(0, 0, 0), cell(1, 0, 0), cell(1, 1, 0), cell(0, 1, 0)];
    let (mut level, ids) = level_and_ids(&cells, Inside);
    let mut sides = [Inside; 8];
    sides[3] = Outside;
    level.address_node_map.insert(cells[0].key(), leaf(cells[0], sides));
    let mut data = data_with(ids);
    let node_0 = level.address_node_map[&cells[0].key()];
    connect_z(cells[0], &node_0, &level, &mut data);
    assert_eq!(data.indices, vec![10, 12, 11, 10, 13, 12]);
}

fn triangles(indices: &[u32]) -> Vec<[u32; 3]> {
    let mut t: Vec<[u32; 3]> = indices.chunks(3).map(|c| [c[0], c[1], c[2]]).collect();
    t.sort();
    t
}

#[test]
fn test_seam_connect_a_block_of_leaves() {
    // A 2 x 2 x 2 block of leaves on the deepest level: along each axis the
    // two leaves on the block's low edge have all three neighbours, and no
    // leaf has exactly two.
    let mut cells = Vec::new();
    for z in 0..2 {
        for y in 0..2 {
            for x in 0..2 {
                cells.push(cell(x, y, z));
            }
        }
    }
    let (level, ids) = level_and_ids(&cells, Inside);
    let mut octree = Octree::new([4, 4, 4]);
    octree.levels.push(OctreeLevel::default());
    octree.levels.push(level);
    let data = seam_connect(&octree, ids.clone());
    assert_eq!(data.address_vertex_id_map, ids);
    let id = |x: u32, y: u32, z: u32| ids[&cell(x, y, z).key()];
    let quad = |a: u32, b: u32, c: u32, d: u32| [a, b, c, a, c, d];
    let mut expected = Vec::new();
    for x in 0..2 {
        expected.extend(quad(id(x, 0, 0), id(x, 0, 1), id(x, 1, 1), id(x, 1, 0)));
    }
    for y in 0..2 {
        expected.extend(quad(id(0, y, 0), id(1, y, 0), id(1, y, 1), id(0, y, 1)));
    }
    for z in 0..2 {
        expected.extend(quad(id(0, 0, z), id(1, 0, z), id(1, 1, z), id(0, 1, z)));
    }
    assert_eq!(data.indices.len(), 36);
    assert_eq!(triangles(&data.indices), triangles(&expected));
}

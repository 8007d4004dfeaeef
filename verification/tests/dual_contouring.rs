use atom_terrain::buffer_type::IsosurfaceSide;
use atom_terrain::dc_octree::{Node, NodeType, Octree, OctreeLevel, OctreeProxy, VoxelMaterialType};
use atom_terrain::dual_contouring::{dual_contouring, DcVisit};
use atom_terrain::morton_code::MortonCode;
use atom_terrain::tables::VertexIndex;

use VoxelMaterialType::{Air, Block};

fn vertex(n: usize) -> VertexIndex {
    VertexIndex::from_repr(n).unwrap()
}

/// Solid below, air above: the corners with y = 1 are air.
fn horizontal_surface() -> [VoxelMaterialType; 8] {
    [Block, Block, Air, Air, Block, Block, Air, Air]
}

/// Solid corners inside the surface, air outside.
fn sides_of(mats: [VoxelMaterialType; 8]) -> [IsosurfaceSide; 8] {
    mats.map(|m| IsosurfaceSide::from(m == Air))
}

fn node(node_type: NodeType, address: MortonCode) -> Node {
    Node {
        node_type,
        address,
        vertices_mat_types: horizontal_surface(),
        vertices_side_types: sides_of(horizontal_surface()),
    }
}

fn octree_with_levels(n: usize) -> Octree {
    let mut octree = Octree::new([4, 4, 4]);
    for _ in 0..n {
        octree.levels.push(OctreeLevel::default());
    }
    octree
}

//      (2)o--------------o(3)
//        /.             /|
//       / .            / |
//      /  .           /  |
//     /   .          /   |     ^ Y
// (6)o--------------o(7) |     |
//    | (0)o. . . . . |. . o(1)  --> X
//    |   .          |   /     /
//    |  .           |  /     /
//    | .            | /     z
//    |.             |/
// (4)o--------------o(5)
#[test]
pub fn test_dual_contouring() {
    let root = MortonCode::root();
    let child_0 = root.child(vertex(0)).unwrap();
    let child_1 = root.child(vertex(1)).unwrap();
    let child_1_2 = child_1.child(vertex(2)).unwrap();
    let child_1_6 = child_1.child(vertex(6)).unwrap();

    // An octree made with `new` has no levels, so no node goes in.
    let mut octree = Octree::new([4, 4, 4]);
    octree.insert_leaf_node(node(NodeType::Branch, root));
    octree.insert_leaf_node(node(NodeType::Leaf, child_0));
    octree.insert_leaf_node(node(NodeType::Branch, child_1));
    octree.insert_leaf_node(node(NodeType::Leaf, child_1_2));
    octree.insert_leaf_node(node(NodeType::Leaf, child_1_6));

    let octree = OctreeProxy {
        octree: &octree,
        is_seam: true,
    };
    let visits = dual_contouring(&octree);
    println!("visits len: {}", visits.len());
    assert!(visits.is_empty());
}

#[test]
fn test_dual_contouring_one_level() {
    let mut octree = octree_with_levels(2);
    let root = MortonCode::root();
    octree.insert_leaf_node(node(NodeType::Branch, root));
    let children: Vec<MortonCode> = (0..8).map(|i| root.child(vertex(i)).unwrap()).collect();
    for c in &children {
        octree.insert_leaf_node(node(NodeType::Leaf, *c));
    }
    let proxy = OctreeProxy {
        octree: &octree,
        is_seam: false,
    };
    let visits = dual_contouring(&proxy);
    let mut expected: Vec<DcVisit> = children.iter().map(|c| DcVisit::Node(*c)).collect();
    // Only the inner edges along y cross the surface: solid below, air above.
    expected.push(DcVisit::Quad(children[0], children[1], children[4], children[5]));
    expected.push(DcVisit::Quad(children[2], children[3], children[6], children[7]));
    assert_eq!(visits, expected);

    // In a seam octree, leaves of different chunks are joined as before.
    let proxy = OctreeProxy {
        octree: &octree,
        is_seam: true,
    };
    assert_eq!(dual_contouring(&proxy), expected);
}

#[test]
fn test_dual_contouring_turns_quads_by_solid_side() {
    let mut octree = octree_with_levels(2);
    let root = MortonCode::root();
    octree.insert_leaf_node(node(NodeType::Branch, root));
    let children: Vec<MortonCode> = (0..8).map(|i| root.child(vertex(i)).unwrap()).collect();
    for c in &children {
        // Air below, solid above.
        octree.insert_leaf_node(Node {
            node_type: NodeType::Leaf,
            address: *c,
            vertices_mat_types: [Air, Air, Block, Block, Air, Air, Block, Block],
            vertices_side_types: sides_of([Air, Air, Block, Block, Air, Air, Block, Block]),
        });
    }
    let proxy = OctreeProxy {
        octree: &octree,
        is_seam: false,
    };
    let visits = dual_contouring(&proxy);
    assert_eq!(visits.len(), 10);
    assert_eq!(
        visits[8],
        DcVisit::Quad(children[4], children[5], children[0], children[1])
    );
}

#[test]
fn test_dual_contouring_seam_skips_one_chunk() {
    let mut octree = octree_with_levels(3);
    let root = MortonCode::root();
    let chunk = root.child(vertex(0)).unwrap();
    octree.insert_leaf_node(node(NodeType::Branch, root));
    octree.insert_leaf_node(node(NodeType::Branch, chunk));
    let leaves: Vec<MortonCode> = (0..8).map(|i| chunk.child(vertex(i)).unwrap()).collect();
    for c in &leaves {
        octree.insert_leaf_node(node(NodeType::Leaf, *c));
    }
    let seam = OctreeProxy {
        octree: &octree,
        is_seam: true,
    };
    let visits = dual_contouring(&seam);
    assert_eq!(visits.len(), 8);
    assert!(visits.iter().all(|v| matches!(v, DcVisit::Node(_))));

    let plain = OctreeProxy {
        octree: &octree,
        is_seam: false,
    };
    let visits = dual_contouring(&plain);
    assert_eq!(visits.len(), 10);
    for v in &visits {
        match v {
            DcVisit::Node(c) => assert!(octree.get_node(c).is_some()),
            DcVisit::Quad(a, b, c, d) => {
                for x in [a, b, c, d] {
                    assert_eq!(octree.get_node(x).unwrap().node_type, NodeType::Leaf);
                }
            }
        }
    }
}

#[test]
fn test_octree_depth() {
    assert_eq!(Octree::get_octree_depth(&[4, 4, 4]), 2);
    assert_eq!(Octree::get_octree_depth(&[5, 5, 5]), 3);
    assert_eq!(Octree::get_octree_depth(&[1, 1, 1]), 0);
}

#[test]
fn test_build_bottom_up_from_leaf_nodes() {
    // A 4 x 4 x 4 leaf grid: leaves on level 2.
    let mut octree = octree_with_levels(3);
    let leaf = |x: u32, y: u32, z: u32| {
        MortonCode::encode(atom_terrain::math::UVec3::new(x, y, z), 2)
    };
    let corner_mats = [Block, Air, Block, Air, Block, Air, Block, Air];
    let a = leaf(0, 0, 0);
    let b = leaf(1, 0, 0);
    let c = leaf(3, 3, 3);
    for code in [a, b, c] {
        octree.insert_leaf_node(Node {
            node_type: NodeType::Leaf,
            address: code,
            vertices_mat_types: corner_mats,
            vertices_side_types: sides_of(corner_mats),
        });
    }
    Octree::build_bottom_up_from_leaf_nodes(&mut octree);

    let parent_ab = a.parent().unwrap();
    let parent_c = c.parent().unwrap();
    let root = MortonCode::root();
    assert_eq!(octree.levels[1].address_node_map.len(), 2);
    assert_eq!(octree.levels[0].address_node_map.len(), 1);

    let pab = octree.get_node(&parent_ab).unwrap();
    assert_eq!(pab.node_type, NodeType::Branch);
    // Children 0 and 1 are leaves: corners 0 and 1 come from them, the
    // others from the middle: child 1's corner 6.
    let mid = corner_mats[6];
    assert_eq!(
        pab.vertices_mat_types,
        [corner_mats[0], corner_mats[1], mid, mid, mid, mid, mid, mid]
    );
    let pc = octree.get_node(&parent_c).unwrap();
    // Only child 7: corner 7 from it, the others from its corner 0.
    let mid = corner_mats[0];
    assert_eq!(
        pc.vertices_mat_types,
        [mid, mid, mid, mid, mid, mid, mid, corner_mats[7]]
    );
    // The root is a branch over branches: air at every corner.
    let r = octree.get_node(&root).unwrap();
    assert_eq!(r.node_type, NodeType::Branch);
    assert_eq!(r.vertices_mat_types, [Air; 8]);
}

#[test]
fn test_build_then_contour() {
    let mut octree = octree_with_levels(2);
    let root = MortonCode::root();
    for i in 0..8 {
        octree.insert_leaf_node(node(NodeType::Leaf, root.child(vertex(i)).unwrap()));
    }
    octree.node_shape = [2, 2, 2];
    Octree::build_bottom_up_from_leaf_nodes(&mut octree);
    assert_eq!(octree.get_node(&root).unwrap().node_type, NodeType::Branch);
    let proxy = OctreeProxy {
        octree: &octree,
        is_seam: false,
    };
    assert_eq!(dual_contouring(&proxy).len(), 10);
}

fn three_leaves_built() -> Octree {
    let mut octree = octree_with_levels(3);
    for (x, y, z) in [(0, 0, 0), (1, 0, 0), (3, 3, 3)] {
        let code = MortonCode::encode(atom_terrain::math::UVec3::new(x, y, z), 2);
        octree.insert_leaf_node(node(NodeType::Leaf, code));
    }
    Octree::build_bottom_up_from_leaf_nodes(&mut octree);
    octree
}

#[test]
fn test_get_nodes_num() {
    assert_eq!(octree_with_levels(3).get_nodes_num(), 0);
    // Three leaves, two parents, one root.
    assert_eq!(three_leaves_built().get_nodes_num(), 6);
}

#[test]
fn test_check_nodes_relation_after_build() {
    let octree = three_leaves_built();
    assert!(Octree::check_nodes_relation(&octree));
    assert!(Octree::check_nodes_relation(&octree_with_levels(3)));
}

#[test]
fn test_check_nodes_relation_branch_without_child() {
    let mut octree = octree_with_levels(3);
    let code = MortonCode::encode(atom_terrain::math::UVec3::new(1, 0, 1), 1);
    octree.insert_leaf_node(node(NodeType::Branch, code));
    assert!(!Octree::check_nodes_relation(&octree));
}

#[test]
fn test_check_nodes_relation_leaf_with_child() {
    let mut octree = octree_with_levels(3);
    let upper = MortonCode::encode(atom_terrain::math::UVec3::new(1, 0, 1), 1);
    octree.insert_leaf_node(node(NodeType::Leaf, upper));
    assert!(Octree::check_nodes_relation(&octree));
    octree.insert_leaf_node(node(NodeType::Leaf, upper.child(vertex(5)).unwrap()));
    assert!(!Octree::check_nodes_relation(&octree));
}

#[test]
fn test_check_nodes_relation_node_under_other_key() {
    let mut octree = octree_with_levels(3);
    let code = MortonCode::encode(atom_terrain::math::UVec3::new(1, 0, 1), 1);
    let other = MortonCode::encode(atom_terrain::math::UVec3::new(0, 0, 1), 1);
    octree.levels[1].address_node_map.insert(other.key(), node(NodeType::Leaf, code));
    assert!(!Octree::check_nodes_relation(&octree));
}

#[test]
fn test_voxel_material_type_from() {
    assert_eq!(VoxelMaterialType::from(0), Air);
    assert_eq!(VoxelMaterialType::from(1), Block);
}

/// Samples of a `size`-wide cube grid (x fastest): inside where the
/// sample's y is below `level`.
fn samples_below(size: u32, level: u32) -> Vec<bool> {
    let mut v = Vec::new();
    for _z in 0..size {
        for y in 0..size {
            for _x in 0..size {
                v.push(y < level);
            }
        }
    }
    v
}

#[test]
fn test_build_leaf_nodes_marks_crossing_voxels() {
    let mut octree = Octree::new([2, 2, 2]);
    octree.levels.push(OctreeLevel::default());
    octree.levels.push(OctreeLevel::default());
    Octree::build_leaf_nodes([3, 3, 3], &mut octree, &samples_below(3, 1));
    assert!(octree.levels[0].address_node_map.is_empty());
    assert_eq!(octree.levels[1].address_node_map.len(), 4);
    for x in 0..2 {
        for z in 0..2 {
            let code = MortonCode::encode(atom_terrain::math::UVec3::new(x, 0, z), 1);
            let n = octree.get_node(&code).unwrap();
            assert_eq!(n.node_type, NodeType::Leaf);
            assert_eq!(n.vertices_mat_types, [Block, Block, Air, Air, Block, Block, Air, Air]);
            let above = MortonCode::encode(atom_terrain::math::UVec3::new(x, 1, z), 1);
            assert!(octree.get_node(&above).is_none());
        }
    }
}

#[test]
fn test_build_bottom_up_builds_a_checked_octree() {
    let mut octree = Octree::new([2, 2, 2]);
    Octree::build_bottom_up(&mut octree, &samples_below(3, 1), [3, 3, 3]);
    assert_eq!(octree.levels.len(), 2);
    assert_eq!(octree.get_nodes_num(), 5);
    let root = octree.get_node(&MortonCode::root()).unwrap();
    assert_eq!(root.node_type, NodeType::Branch);
    assert!(Octree::check_nodes_relation(&octree));
}

#[test]
fn test_build_bottom_up_one_voxel() {
    // A single voxel, its own root: a leaf where its corners differ.
    let mut octree = Octree::new([1, 1, 1]);
    Octree::build_bottom_up(&mut octree, &samples_below(2, 1), [2, 2, 2]);
    assert_eq!(octree.levels.len(), 1);
    assert_eq!(octree.get_node(&MortonCode::root()).unwrap().node_type, NodeType::Leaf);
    let mut octree = Octree::new([1, 1, 1]);
    Octree::build_bottom_up(&mut octree, &samples_below(2, 2), [2, 2, 2]);
    assert_eq!(octree.get_nodes_num(), 0);
}

#[test]
fn test_build_bottom_up_drops_extra_levels() {
    let mut octree = octree_with_levels(5);
    octree.node_shape = [2, 2, 2];
    Octree::build_bottom_up(&mut octree, &samples_below(3, 2), [3, 3, 3]);
    assert_eq!(octree.levels.len(), 2);
    assert_eq!(octree.levels[1].address_node_map.len(), 4);
}

#[test]
fn test_dual_contouring_visits_each_leaf_once_before_its_quads() {
    let mut octree = octree_with_levels(3);
    let root = MortonCode::root();
    octree.insert_leaf_node(node(NodeType::Branch, root));
    let split = root.child(vertex(1)).unwrap();
    let mut leaves: Vec<MortonCode> = Vec::new();
    for i in 0..8 {
        let c = root.child(vertex(i)).unwrap();
        if c == split {
            octree.insert_leaf_node(node(NodeType::Branch, c));
            for j in 0..8 {
                let g = c.child(vertex(j)).unwrap();
                octree.insert_leaf_node(node(NodeType::Leaf, g));
                leaves.push(g);
            }
        } else {
            octree.insert_leaf_node(node(NodeType::Leaf, c));
            leaves.push(c);
        }
    }
    let proxy = OctreeProxy {
        octree: &octree,
        is_seam: false,
    };
    let visits = dual_contouring(&proxy);
    let mut seen: Vec<MortonCode> = Vec::new();
    let mut quads = 0;
    for v in &visits {
        match v {
            DcVisit::Node(c) => {
                assert!(!seen.contains(c));
                seen.push(*c);
            }
            DcVisit::Quad(a, b, c, d) => {
                quads += 1;
                for x in [a, b, c, d] {
                    assert!(seen.contains(x));
                }
            }
        }
    }
    assert!(quads > 0);
    let mut seen_keys: Vec<u64> = seen.iter().map(|c| c.key()).collect();
    let mut leaf_keys: Vec<u64> = leaves.iter().map(|c| c.key()).collect();
    seen_keys.sort();
    leaf_keys.sort();
    assert_eq!(seen_keys, leaf_keys);

    // Without a root nothing is visited.
    let empty = octree_with_levels(3);
    let proxy = OctreeProxy {
        octree: &empty,
        is_seam: false,
    };
    assert!(dual_contouring(&proxy).is_empty());
}

use atom_terrain::lod_octree::{update_terrain_lod_octree, TerrainLodOctree, TerrainLodOctreeLevel};
use atom_terrain::math::UVec3;
use atom_terrain::morton_code::MortonCode;
use atom_terrain::neighbor_query::{
    get_child_lod_octree_nodes_by_vertex, get_children_lod_octree_nodes_by_edge,
    get_children_lod_octree_nodes_by_face, get_edge_neighbor_lod_octree_nodes,
    get_face_neighbor_lod_octree_nodes, get_neighbor_all_nodes,
    get_neighbor_negative_direction_nodes, get_neighbor_positive_direction_nodes,
    get_parent_lod_octree_node, get_vertex_neighbor_lod_octree_nodes,
};
use atom_terrain::tables::{EdgeIndex, FaceIndex, VertexIndex};

fn cell(x: u32, y: u32, z: u32, level: u8) -> MortonCode {
    MortonCode::encode(UVec3::new(x, y, z), level)
}

/// Level 1 holds seven of the eight children of the root; the child at
/// (1, 0, 0) is split into its eight children on level 2.
fn octree() -> TerrainLodOctree {
    let mut levels = Vec::new();
    for _ in 0..3 {
        levels.push(TerrainLodOctreeLevel::default());
    }
    for x in 0..2 {
        for y in 0..2 {
            for z in 0..2 {
                if (x, y, z) != (1, 0, 0) {
                    levels[1].insert_leaf_node(cell(x, y, z, 1));
                }
                levels[2].insert_leaf_node(cell(2 + x, y, z, 2));
            }
        }
    }
    TerrainLodOctree {
        octree_levels: levels,
    }
}

#[test]
fn test_node_key_round_trip() {
    for level in [0u8, 1, 5, 21] {
        let max = (1u32 << level) - 1;
        for c in [cell(0, 0, 0, level), cell(max, 0, max, level), cell(max, max, max, level)] {
            let key = c.key();
            assert_eq!(MortonCode::from_key(key), Some(c));
        }
    }
    assert_eq!(cell(0, 0, 0, 0).key(), 1);
    assert_eq!(cell(1, 0, 0, 1).key(), 8 + 1);
    assert_eq!(MortonCode::from_key(0), None);
    // Between 2 * 8 and 8^2 no level-1 or level-2 cell has a key.
    assert_eq!(MortonCode::from_key(20), None);
}

#[test]
fn test_level_swap_added_and_removed() {
    let mut level = TerrainLodOctreeLevel::default();
    let a = cell(0, 0, 0, 1);
    let b = cell(1, 0, 0, 1);
    level.insert_leaf_node(a);
    level.insert_leaf_node(b);
    assert_eq!(level.find_leaf_node(&a), Some(a));
    let mut added = level.get_added_nodes();
    added.sort();
    let mut expected = vec![a.key(), b.key()];
    expected.sort();
    assert_eq!(added, expected);
    assert!(level.get_removed_nodes().is_empty());

    level.swap();
    assert_eq!(level.find_leaf_node(&a), None);
    assert_eq!(level.get_current().len(), 0);
    level.insert_leaf_node(b);
    let c = cell(1, 1, 0, 1);
    level.insert_leaf_node(c);
    assert_eq!(level.get_added_nodes(), vec![c.key()]);
    assert_eq!(level.get_removed_nodes(), vec![a.key()]);

    level.remove_leaf_node(&b);
    assert_eq!(level.find_leaf_node(&b), None);
    assert_eq!(level.find_leaf_node(&c), Some(c));
}

#[test]
fn test_get_node_checks_the_level() {
    let tree = octree();
    assert_eq!(tree.get_node(&cell(0, 0, 0, 1)), Some(cell(0, 0, 0, 1)));
    assert_eq!(tree.get_node(&cell(1, 0, 0, 1)), None);
    assert_eq!(tree.get_node(&cell(0, 0, 0, 0)), None);
    assert_eq!(tree.get_node(&cell(0, 0, 0, 3)), None);
}

#[test]
fn test_parent_search() {
    let tree = octree();
    // Above (0, 0, 0) on level 2 the octree holds (0, 0, 0) on level 1.
    assert_eq!(
        get_parent_lod_octree_node(&tree, &cell(0, 0, 0, 2), 2),
        Some(cell(0, 0, 0, 1))
    );
    assert_eq!(get_parent_lod_octree_node(&tree, &cell(0, 0, 0, 2), 0), None);
    // Above the split cell's children nothing is held.
    assert_eq!(get_parent_lod_octree_node(&tree, &cell(2, 0, 0, 2), 3), None);
}

#[test]
fn test_children_searches() {
    let tree = octree();
    let split = cell(1, 0, 0, 1);
    let left = get_children_lod_octree_nodes_by_face(&tree, split, FaceIndex::Left, 1);
    assert_eq!(
        left,
        vec![
            cell(2, 0, 0, 2),
            cell(2, 1, 0, 2),
            cell(2, 0, 1, 2),
            cell(2, 1, 1, 2)
        ]
    );
    assert!(get_children_lod_octree_nodes_by_face(&tree, split, FaceIndex::Left, 0).is_empty());
    let edge = get_children_lod_octree_nodes_by_edge(&tree, split, EdgeIndex::ZAxisX0Y1, 1);
    assert_eq!(edge, vec![cell(2, 1, 0, 2), cell(2, 1, 1, 2)]);
    let vertex = get_child_lod_octree_nodes_by_vertex(&tree, split, VertexIndex::X0Y1Z1, 1);
    assert_eq!(vertex, vec![cell(2, 1, 1, 2)]);
}

#[test]
fn test_face_neighbors_same_level_and_finer() {
    let tree = octree();
    let c = cell(0, 0, 0, 1);
    assert_eq!(
        get_face_neighbor_lod_octree_nodes(&tree, &c, FaceIndex::Top, 2),
        vec![cell(0, 1, 0, 1)]
    );
    assert_eq!(
        get_face_neighbor_lod_octree_nodes(&tree, &c, FaceIndex::Right, 2),
        vec![
            cell(2, 0, 0, 2),
            cell(2, 1, 0, 2),
            cell(2, 0, 1, 2),
            cell(2, 1, 1, 2)
        ]
    );
    // Outside the grid: none.
    assert!(get_face_neighbor_lod_octree_nodes(&tree, &c, FaceIndex::Left, 2).is_empty());
}

#[test]
fn test_face_neighbor_coarser() {
    let tree = octree();
    // From the split cell's child at (2, 0, 0), the cell on the left on
    // level 2 is not held; its parent on level 1 is.
    assert_eq!(
        get_face_neighbor_lod_octree_nodes(&tree, &cell(2, 0, 0, 2), FaceIndex::Left, 2),
        vec![cell(0, 0, 0, 1)]
    );
}

#[test]
fn test_edge_and_vertex_neighbors() {
    let tree = octree();
    let c = cell(0, 1, 0, 1);
    // Across the edge along z at x = 1, y = 0: the split cell's children
    // on its edge at x = 0, y = 1.
    assert_eq!(
        get_edge_neighbor_lod_octree_nodes(&tree, &c, EdgeIndex::ZAxisX1Y0, 2),
        vec![cell(2, 1, 0, 2), cell(2, 1, 1, 2)]
    );
    let d = cell(0, 1, 1, 1);
    assert_eq!(
        get_vertex_neighbor_lod_octree_nodes(&tree, &d, VertexIndex::X1Y0Z0, 2),
        vec![cell(2, 1, 1, 2)]
    );
}

#[test]
fn test_direction_searches() {
    let tree = octree();
    let c = cell(0, 0, 0, 1);
    let positive = get_neighbor_positive_direction_nodes(&tree, &c, 2);
    // Right: four children; front, top and the three edges where two of
    // them meet: one cell each.
    assert_eq!(positive.len(), 4 + 1 + 1 + 1 + 1 + 1);
    assert!(get_neighbor_negative_direction_nodes(&tree, &c, 2).is_empty());
    let all = get_neighbor_all_nodes(&tree, &c, 2);
    assert_eq!(all.len(), positive.len());
    for n in all {
        assert!(tree.get_node(&n).is_some());
    }
}

fn current_keys(octree: &TerrainLodOctree, level: usize) -> Vec<u64> {
    let mut keys: Vec<u64> = octree.octree_levels[level].get_current().iter().copied().collect();
    keys.sort();
    keys
}

fn sorted_keys(cells: &[MortonCode]) -> Vec<u64> {
    let mut keys: Vec<u64> = cells.iter().map(|c| c.key()).collect();
    keys.sort();
    keys
}

fn children(c: MortonCode) -> Vec<MortonCode> {
    (0..8).map(|i| c.child(VertexIndex::from_repr(i).unwrap()).unwrap()).collect()
}

#[test]
fn test_update_divides_the_root_only() {
    let mut octree = TerrainLodOctree::default();
    let root = MortonCode::root();
    update_terrain_lod_octree(&mut octree, 2, true, |c: MortonCode| c == root);
    assert_eq!(octree.octree_levels.len(), 3);
    assert!(current_keys(&octree, 0).is_empty());
    assert_eq!(current_keys(&octree, 1), sorted_keys(&children(root)));
    assert!(current_keys(&octree, 2).is_empty());
}

#[test]
fn test_update_stops_at_the_depth() {
    let mut octree = TerrainLodOctree::default();
    update_terrain_lod_octree(&mut octree, 1, true, |_c: MortonCode| true);
    assert_eq!(octree.octree_levels.len(), 2);
    assert!(current_keys(&octree, 0).is_empty());
    assert_eq!(current_keys(&octree, 1), sorted_keys(&children(MortonCode::root())));
}

#[test]
fn test_update_depth_zero_keeps_the_root() {
    let mut octree = TerrainLodOctree::default();
    update_terrain_lod_octree(&mut octree, 0, true, |_c: MortonCode| true);
    assert_eq!(octree.octree_levels.len(), 1);
    assert_eq!(current_keys(&octree, 0), vec![MortonCode::root().key()]);
}

#[test]
fn test_update_divides_one_corner_further() {
    let mut octree = TerrainLodOctree::default();
    let root = MortonCode::root();
    let corner = cell(0, 0, 0, 1);
    update_terrain_lod_octree(&mut octree, 3, true, |c: MortonCode| c == root || c == corner);
    let level_1: Vec<MortonCode> = children(root).into_iter().filter(|c| *c != corner).collect();
    assert_eq!(current_keys(&octree, 1), sorted_keys(&level_1));
    assert_eq!(current_keys(&octree, 2), sorted_keys(&children(corner)));
    assert!(current_keys(&octree, 3).is_empty());
    // Every cell of the deepest level lies in exactly one leaf.
    for x in 0..8 {
        for y in 0..8 {
            for z in 0..8 {
                let mut c = cell(x, y, z, 3);
                let mut count = 0;
                loop {
                    if octree.get_node(&c).is_some() {
                        count += 1;
                    }
                    match c.parent() {
                        Some(p) => c = p,
                        None => break,
                    }
                }
                assert_eq!(count, 1);
            }
        }
    }
}

#[test]
fn test_update_without_observers_clears_the_leaves() {
    let mut octree = TerrainLodOctree::default();
    let root = MortonCode::root();
    update_terrain_lod_octree(&mut octree, 2, true, |c: MortonCode| c == root);
    update_terrain_lod_octree(&mut octree, 2, false, |_c: MortonCode| true);
    for level in 0..3 {
        assert!(current_keys(&octree, level).is_empty());
    }
    let mut removed = octree.octree_levels[1].get_removed_nodes();
    removed.sort();
    assert_eq!(removed, sorted_keys(&children(root)));
}

#[test]
fn test_update_twice_reports_added_and_removed() {
    let mut octree = TerrainLodOctree::default();
    let root = MortonCode::root();
    let corner = cell(1, 1, 1, 1);
    update_terrain_lod_octree(&mut octree, 2, true, |c: MortonCode| c == root);
    update_terrain_lod_octree(&mut octree, 2, true, |c: MortonCode| c == root || c == corner);
    assert_eq!(octree.octree_levels[1].get_added_nodes(), Vec::<u64>::new());
    assert_eq!(octree.octree_levels[1].get_removed_nodes(), vec![corner.key()]);
    let mut added = octree.octree_levels[2].get_added_nodes();
    added.sort();
    assert_eq!(added, sorted_keys(&children(corner)));
}

#[test]
fn test_update_keeps_extra_levels() {
    let mut octree = TerrainLodOctree::default();
    for _ in 0..5 {
        octree.octree_levels.push(TerrainLodOctreeLevel::default());
    }
    update_terrain_lod_octree(&mut octree, 2, true, |_c: MortonCode| false);
    assert_eq!(octree.octree_levels.len(), 5);
    assert_eq!(current_keys(&octree, 0), vec![MortonCode::root().key()]);
    for level in 1..5 {
        assert!(current_keys(&octree, level).is_empty());
    }
}

#[test]
fn test_get_current_mut_changes_the_current_set() {
    let mut level = TerrainLodOctreeLevel::default();
    let a = cell(1, 0, 0, 1);
    let b = cell(0, 1, 0, 1);
    level.get_current_mut().insert(a.key());
    assert!(level.find_leaf_node(&a).is_some());
    level.swap();
    level.get_current_mut().insert(b.key());
    assert!(level.find_leaf_node(&b).is_some());
    assert!(level.find_leaf_node(&a).is_none());
    assert_eq!(level.get_removed_nodes(), vec![a.key()]);
}

#[test]
fn test_removed_then_added_give_the_current_leaves() {
    let mut octree = TerrainLodOctree::default();
    let root = MortonCode::root();
    let corner = cell(0, 1, 0, 1);
    update_terrain_lod_octree(&mut octree, 2, true, |c: MortonCode| c == root || c == corner);
    let first: Vec<Vec<u64>> = (0..3).map(|l| current_keys(&octree, l)).collect();
    update_terrain_lod_octree(&mut octree, 2, true, |c: MortonCode| c == root);
    for l in 0..3 {
        let level = &octree.octree_levels[l];
        let removed = level.get_removed_nodes();
        let mut rebuilt: Vec<u64> = first[l].iter().copied().filter(|k| !removed.contains(k)).collect();
        rebuilt.extend(level.get_added_nodes());
        rebuilt.sort();
        assert_eq!(rebuilt, current_keys(&octree, l));
    }
}

#[test]
fn test_update_leaves_weigh_the_root() {
    let mut octree = TerrainLodOctree::default();
    let root = MortonCode::root();
    let corner = cell(0, 0, 0, 1);
    let inner = cell(1, 1, 1, 2);
    let depth: u8 = 3;
    update_terrain_lod_octree(&mut octree, depth, true, |c: MortonCode| {
        c == root || c == corner || c == inner
    });
    // Each leaf of level l covers 8^(depth - l) cells of the deepest level.
    let mut weight: u64 = 0;
    let mut leaves: Vec<MortonCode> = Vec::new();
    for level in 0..=depth as usize {
        for key in octree.octree_levels[level].get_current().iter() {
            let c = MortonCode::from_key(*key).unwrap();
            assert_eq!(c.level() as usize, level);
            weight += 8u64.pow((depth as u32) - (level as u32));
            leaves.push(c);
        }
    }
    assert_eq!(weight, 8u64.pow(depth as u32));
    // No leaf lies inside another.
    for a in &leaves {
        for b in &leaves {
            if a.level() < b.level() {
                assert_ne!(b.morton_code_on_level(a.level()), Some(*a));
            }
        }
    }
}

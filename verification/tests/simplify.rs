use std::collections::HashMap;

use atom_terrain::dc_octree::{Node, NodeType, Octree};
use atom_terrain::morton_code::MortonCode;

/// Samples of a `size`-wide cube grid (x fastest): inside where the
/// sample's y is below `level`.
fn samples_below(size: u32, level: u32) -> Vec<bool> {
    let mut v = Vec::new();
    for _z in 0..size {
        for y in 0..size {
            for _x in 0..size {
                v.push(y < level);
            }
        }
    }
    v
}

/// All nodes of an octree over a `size`-wide sample grid, in one map.
fn flat_map(size: u32, level: u32) -> HashMap<u64, Node> {
    let mut octree = Octree::new([size - 1; 3]);
    Octree::build_bottom_up(&mut octree, &samples_below(size, level), [size; 3]);
    let mut map = HashMap::new();
    for l in octree.levels.iter() {
        for (k, n) in l.address_node_map.iter() {
            map.insert(*k, *n);
        }
    }
    map
}

fn same_maps(a: &HashMap<u64, Node>, b: &HashMap<u64, Node>) -> bool {
    a.len() == b.len()
        && a.iter().all(|(k, n)| match b.get(k) {
            Some(m) => {
                n.node_type == m.node_type
                    && n.address == m.address
                    && n.vertices_mat_types == m.vertices_mat_types
                    && n.vertices_side_types == m.vertices_side_types
            }
            None => false,
        })
}

fn count_by_level(map: &HashMap<u64, Node>) -> Vec<usize> {
    let mut counts = vec![0; 4];
    for n in map.values() {
        counts[n.address.level() as usize] += 1;
    }
    counts
}

#[test]
fn test_simplify_collapses_everything_that_passes() {
    let mut map = flat_map(3, 1);
    assert_eq!(map.len(), 5);
    Octree::simplify_octree(&mut map, [2, 2, 2], |_c: MortonCode| true);
    assert_eq!(map.len(), 1);
    let root = map[&MortonCode::root().key()];
    assert_eq!(root.node_type, NodeType::Leaf);
}

#[test]
fn test_simplify_keeps_what_fails() {
    let mut map = flat_map(5, 1);
    let before = map.clone();
    Octree::simplify_octree(&mut map, [4, 4, 4], |_c: MortonCode| false);
    assert!(same_maps(&map, &before));
}

#[test]
fn test_simplify_two_levels() {
    // A 4-wide voxel grid: 16 leaves on level 2 (the bottom layer of
    // voxels), 4 branches on level 1, the root.
    let map = flat_map(5, 1);
    assert_eq!(count_by_level(&map), vec![1, 4, 16, 0]);

    let mut all = map.clone();
    Octree::simplify_octree(&mut all, [4, 4, 4], |_c: MortonCode| true);
    assert_eq!(count_by_level(&all), vec![1, 0, 0, 0]);

    let mut level_1 = map.clone();
    Octree::simplify_octree(&mut level_1, [4, 4, 4], |c: MortonCode| c.level() == 1);
    assert_eq!(count_by_level(&level_1), vec![1, 4, 0, 0]);
    assert_eq!(level_1[&MortonCode::root().key()].node_type, NodeType::Branch);
    for n in level_1.values() {
        if n.address.level() == 1 {
            assert_eq!(n.node_type, NodeType::Leaf);
        }
    }

    // The root passes but its children are branches: nothing collapses.
    let mut root_only = map.clone();
    Octree::simplify_octree(&mut root_only, [4, 4, 4], |c: MortonCode| c.level() == 0);
    assert!(same_maps(&root_only, &map));
}

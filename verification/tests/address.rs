use std::collections::HashSet;

use atom_terrain::address::NodeAddress;
use atom_terrain::coord_address::{construct_octree_coord_address_vec, construct_octree_depth_coord_map};
use atom_terrain::tables::{EdgeIndex, FaceIndex, SubNodeIndex, VertexIndex};

#[test]
fn test_get_child_address() {
    let address = NodeAddress::root();
    let child_address = address.get_child_address(SubNodeIndex::X0Y0Z0);
    assert_eq!(
        child_address,
        NodeAddress::new().with_raw_address(0).with_depth(1)
    );
}

#[test]
fn test_get_pos_in_parent() {
    let address = NodeAddress::root();
    let pos_in_parent = address.get_pos_in_parent();
    assert_eq!(pos_in_parent, None);

    let address = NodeAddress::root();
    let child_address = address.get_child_address(SubNodeIndex::X0Y1Z0);
    assert_eq!(
        child_address.get_pos_in_parent(),
        Some(SubNodeIndex::X0Y1Z0)
    );
}

#[test]
fn test_get_pos_by_depth() {
    let address = NodeAddress::root();
    let pos = address.get_pos_by_depth(0);
    assert_eq!(pos, Some(SubNodeIndex::X0Y0Z0));

    let child_address = address.get_child_address(SubNodeIndex::X0Y1Z0);
    assert_eq!(
        child_address.get_pos_by_depth(0),
        Some(SubNodeIndex::X0Y0Z0)
    );
    assert_eq!(
        child_address.get_pos_by_depth(1),
        Some(SubNodeIndex::X0Y1Z0)
    );

    let mut address = NodeAddress::new();
    address.set_depth(4);
    address.set_raw_address(0o34);

    assert_eq!(address.get_pos_by_depth(1), Some(SubNodeIndex::X0Y0Z0));
    assert_eq!(address.get_pos_by_depth(3), SubNodeIndex::from_repr(3));
}

#[test]
fn test_get_neighbor_address_simple() {
    let address = NodeAddress::root();
    assert_eq!(
        address.get_face_neighbor_address(FaceIndex::Right),
        NodeAddress::root()
    );

    let address = NodeAddress::root();
    let child_address = address.get_child_address(SubNodeIndex::X0Y0Z0);
    assert_eq!(
        child_address.get_face_neighbor_address(FaceIndex::Right),
        NodeAddress::new().with_raw_address(1).with_depth(1)
    );
}

#[test]
fn test_get_neighbor_address() {
    let address = NodeAddress::root();
    let child_address_1 = address.get_child_address(SubNodeIndex::X0Y0Z0);
    let child_address_2 = address.get_child_address(SubNodeIndex::X0Y0Z1);
    assert_eq!(
        child_address_1.get_face_neighbor_address(FaceIndex::Front),
        child_address_2
    );
}

#[test]
fn test_get_neighbor_address_crossing_node() {
    let address = NodeAddress::root();

    let child_address_1 = address.get_child_address(SubNodeIndex::X1Y1Z0);
    let child_child_address_1 = child_address_1.get_child_address(SubNodeIndex::X0Y0Z0);

    assert_eq!(
        child_child_address_1.get_face_neighbor_address(FaceIndex::Left),
        NodeAddress::new().with_raw_address(0o021).with_depth(2)
    );

    let child_address_2 = address.get_child_address(SubNodeIndex::X0Y1Z0);
    let child_child_address_2 = child_address_2.get_child_address(SubNodeIndex::X1Y0Z0);

    assert_eq!(
        child_child_address_1.get_face_neighbor_address(FaceIndex::Left),
        child_child_address_2
    );
}

#[test]
fn test_neighbor_crossing_node() {
    let address = NodeAddress::new().with_raw_address(0o7).with_depth(2);
    let address_neighbor = address.get_face_neighbor_address(FaceIndex::Right);
    assert_eq!(
        address_neighbor,
        NodeAddress::new().with_raw_address(0o16).with_depth(2)
    );
}

#[test]
fn test_construct_octree_address_vec() {
    // depth == 1
    let shape = [2, 2, 2];
    let leaf_address = construct_octree_coord_address_vec(shape);
    assert_eq!(leaf_address.len(), 8);

    assert_eq!(
        leaf_address[0],
        NodeAddress::new().with_depth(1).with_raw_address(0o0)
    );

    assert_eq!(
        leaf_address[4],
        NodeAddress::new().with_depth(1).with_raw_address(0o04)
    );

    assert_eq!(
        leaf_address[5],
        NodeAddress::new().with_depth(1).with_raw_address(0o05)
    );

    assert_eq!(
        leaf_address[2],
        NodeAddress::new().with_depth(1).with_raw_address(0o02)
    );
}

fn depth_entry(map: &[(u16, Vec<NodeAddress>)], depth: u16) -> Option<&Vec<NodeAddress>> {
    map.iter().find(|(d, _)| *d == depth).map(|(_, v)| v)
}

#[test]
fn test_construct_octree_address_map() {
    // a chunk of 4 m with voxels of 0.5 m, eight chunks wide: 4 * 8 / 0.5 = 64 cells
    let leaf_address_map = construct_octree_depth_coord_map(64);
    // 4, 2, 1, 0.5
    assert_eq!(leaf_address_map.len(), 7);

    let leaf_address = depth_entry(&leaf_address_map, 0).unwrap();
    assert_eq!(leaf_address.len(), 1);
    assert_eq!(leaf_address[0].depth(), 0);

    let leaf_address = depth_entry(&leaf_address_map, 1).unwrap();
    assert_eq!(leaf_address.len(), 8_usize.pow(1));
    assert_eq!(leaf_address[0].depth(), 1);

    let leaf_address = depth_entry(&leaf_address_map, 2).unwrap();
    assert_eq!(leaf_address.len(), 8_usize.pow(2));
    assert_eq!(leaf_address[0].depth(), 2);
    let mut check_set: HashSet<NodeAddress> = HashSet::new();
    check_set.extend(leaf_address.iter());
    assert!(check_set.len() == leaf_address.len());

    let leaf_address = depth_entry(&leaf_address_map, 3).unwrap();
    assert_eq!(leaf_address.len(), 8_usize.pow(3));
    assert_eq!(leaf_address[0].depth(), 3);
    let mut check_set: HashSet<NodeAddress> = HashSet::new();
    check_set.extend(leaf_address.iter());
    assert!(check_set.len() == leaf_address.len());

    let leaf_address = depth_entry(&leaf_address_map, 4).unwrap();
    assert_eq!(leaf_address.len(), 8_usize.pow(4));
    assert_eq!(leaf_address[0].depth(), 4);
    let mut check_set: HashSet<NodeAddress> = HashSet::new();
    check_set.extend(leaf_address.iter());
    assert!(check_set.len() == leaf_address.len());

    assert!(depth_entry(&leaf_address_map, 6).is_some());
    assert!(depth_entry(&leaf_address_map, 7).is_none());
}

#[test]
fn test_concat_address() {
    let address = NodeAddress::root();
    let child_address_1 = address.get_child_address(SubNodeIndex::X0Y1Z1);

    let address = NodeAddress::root();
    let child_address_2 = address.get_child_address(SubNodeIndex::X0Y1Z0);

    let concatenate_address = child_address_1.concat_address(child_address_2);

    let address = NodeAddress::root();
    let child_address = address.get_child_address(SubNodeIndex::X0Y1Z1);
    let child_child_address = child_address.get_child_address(SubNodeIndex::X0Y1Z0);
    assert_eq!(concatenate_address, child_child_address);

    let address_1 = NodeAddress::root();
    let address_2 = NodeAddress::root();
    assert_eq!(address_1.concat_address(address_2), NodeAddress::root());
}

#[test]
fn parent_undoes_child() {
    let address = NodeAddress::new().with_raw_address(0o5362).with_depth(4);
    for i in 0..8 {
        let sub = VertexIndex::from_repr(i).unwrap();
        let child = address.get_child_address(sub);
        assert_eq!(child.get_parent_address(), address);
        assert_eq!(child.get_pos_in_parent(), Some(sub));
        assert_eq!(child.raw_address(), 0o5362 * 8 + i as u64);
        assert_eq!(child.get_depth(), 5);
    }
}

#[test]
fn set_and_set_child_agree_with_get_child_address() {
    let parent = NodeAddress::new().with_raw_address(0o41).with_depth(2);
    let mut a = NodeAddress::new();
    a.set(parent, VertexIndex::X1Y1Z0);
    assert_eq!(a, parent.get_child_address(VertexIndex::X1Y1Z0));
    let mut b = parent;
    b.set_child(VertexIndex::X1Y1Z0);
    assert_eq!(b, a);
    b.reset();
    assert_eq!(b, NodeAddress::root());
}

#[test]
fn raw_and_depth_fields_are_independent() {
    let a = NodeAddress::new().with_raw_address(0xFFFF_FFFF_FFFF).with_depth(0xFFFF);
    assert_eq!(a.raw_address(), 0xFFFF_FFFF_FFFF);
    assert_eq!(a.depth(), 0xFFFF);
    let b = a.with_depth(3);
    assert_eq!(b.raw_address(), 0xFFFF_FFFF_FFFF);
    assert_eq!(b.depth(), 3);
    let c = b.with_raw_address(7);
    assert_eq!(c.raw_address(), 7);
    assert_eq!(c.depth(), 3);
}

#[test]
fn children_addresses_in_table_order() {
    let a = NodeAddress::new().with_raw_address(0o3).with_depth(1);
    let all = a.get_children_addresses();
    for i in 0..8 {
        assert_eq!(all[i], a.get_child_address(VertexIndex::from_repr(i).unwrap()));
    }
    let left = a.get_children_addresses_by_face(FaceIndex::Left);
    let raws: Vec<u64> = left.iter().map(|c| c.raw_address()).collect();
    assert_eq!(raws, vec![0o30, 0o32, 0o34, 0o36]);
    let top = a.get_children_addresses_by_face(FaceIndex::Top);
    let raws: Vec<u64> = top.iter().map(|c| c.raw_address()).collect();
    assert_eq!(raws, vec![0o32, 0o33, 0o36, 0o37]);
    let edge = a.get_children_addresses_by_edge(EdgeIndex::ZAxisX1Y0);
    assert_eq!(edge[0].raw_address(), 0o31);
    assert_eq!(edge[1].raw_address(), 0o35);
    let vertex = a.get_children_addresses_by_vertex(VertexIndex::X1Y1Z1);
    assert_eq!(vertex.raw_address(), 0o37);
}

#[test]
fn face_neighbor_twin_on_concrete_node() {
    // node at depth 3 with coordinates (3, 5, 2): digits from the root are
    // (x, y, z) bits 2, 1, 0: (0,1,0)=2, (1,0,1)=5, (1,1,0)=3
    let a = NodeAddress::new().with_raw_address(0o253).with_depth(3);
    for f in 0..6 {
        let face = FaceIndex::from_repr(f).unwrap();
        let opposite = FaceIndex::from_repr(f ^ 1).unwrap();
        let n = a.get_face_neighbor_address(face);
        assert_eq!(n.depth(), 3);
        assert_eq!(n.get_face_neighbor_address(opposite), a);
    }
    // x + 1 = 4: 0o253 -> (1,1,0)=3, (0,0,1)=4, (0,1,0)=2
    assert_eq!(a.get_face_neighbor_address(FaceIndex::Right).raw_address(), 0o342);
}

#[test]
fn face_neighbor_on_octree_face_is_root() {
    // coordinates (0, 0, 0) at depth 2: no left neighbour
    let a = NodeAddress::new().with_raw_address(0).with_depth(2);
    assert_eq!(a.get_face_neighbor_address(FaceIndex::Left), NodeAddress::root());
    // coordinates (3, 3, 3) at depth 2: no front neighbour
    let b = NodeAddress::new().with_raw_address(0o77).with_depth(2);
    assert_eq!(b.get_face_neighbor_address(FaceIndex::Front), NodeAddress::root());
}

#[test]
fn edge_and_vertex_neighbors() {
    // coordinates (1, 1, 1) at depth 2: digits (0,0,0)=0, (1,1,1)=7
    let a = NodeAddress::new().with_raw_address(0o07).with_depth(2);
    // edge YAxisX1Z0: right then back: (2, 1, 0): digits (1,0,0)=1, (0,1,0)=2
    assert_eq!(a.get_edge_neighbor_address(EdgeIndex::YAxisX1Z0).raw_address(), 0o12);
    // the vertex search keeps the last face it crossed: z only.
    // X1Y1Z1 -> front: (1, 1, 2): digits (0,0,1)=4, (1,1,0)=3
    assert_eq!(
        a.get_vertex_neighbor_address(VertexIndex::X1Y1Z1),
        a.get_face_neighbor_address(FaceIndex::Front)
    );
    assert_eq!(a.get_vertex_neighbor_address(VertexIndex::X1Y1Z1).raw_address(), 0o43);
}

#[test]
fn concat_appends_paths() {
    let a = NodeAddress::new().with_raw_address(0o5).with_depth(1);
    let b = NodeAddress::new().with_raw_address(0o17).with_depth(2);
    let c = a.concat_address(b);
    assert_eq!(c.raw_address(), 0o517);
    assert_eq!(c.depth(), 3);
    assert_eq!(NodeAddress::root().concat_address(b), b);
    assert_eq!(a.concat_address(NodeAddress::root()), a);
}

#[test]
fn grid_addresses_decode_to_their_cells() {
    // in a 4 x 4 x 4 grid, cell (x, y, z) gets digits (x1 y1 z1)(x0 y0 z0)
    let v = construct_octree_coord_address_vec([4, 4, 4]);
    assert_eq!(v.len(), 64);
    for z in 0..4u64 {
        for y in 0..4u64 {
            for x in 0..4u64 {
                let a = v[(x + 4 * y + 16 * z) as usize];
                let hi = (x >> 1) + 2 * (y >> 1) + 4 * (z >> 1);
                let lo = (x & 1) + 2 * (y & 1) + 4 * (z & 1);
                assert_eq!(a.raw_address(), hi * 8 + lo);
                assert_eq!(a.depth(), 2);
            }
        }
    }
}

#[test]
fn grid_of_odd_size() {
    // 3 cells per side: depth ceil(log2(3)) = 2
    let v = construct_octree_coord_address_vec([3, 3, 3]);
    assert_eq!(v.len(), 27);
    assert_eq!(v[0].depth(), 2);
    // the split point of a side of 3 stays at 1, so cells 1 and 2 of a row
    // get the same address
    assert_eq!(v[1], v[2]);
    assert_eq!(v[1].raw_address(), 0o11);
    assert_ne!(v[0], v[1]);
}

#[test]
fn depth_map_of_empty_chunk() {
    assert!(construct_octree_depth_coord_map(0).is_empty());
    let one = construct_octree_depth_coord_map(1);
    assert_eq!(one.len(), 1);
    assert_eq!(one[0].0, 0);
    assert_eq!(one[0].1.len(), 1);
}

#[test]
fn concat_address_is_associative() {
    let root = NodeAddress::root();
    let a = root.get_child_address(SubNodeIndex::X1Y0Z1).get_child_address(SubNodeIndex::X0Y1Z0);
    let b = root.get_child_address(SubNodeIndex::X1Y1Z1);
    let c = root.get_child_address(SubNodeIndex::X0Y0Z1).get_child_address(SubNodeIndex::X1Y1Z0);
    let left = a.concat_address(b).concat_address(c);
    let right = a.concat_address(b.concat_address(c));
    assert_eq!(left, right);
    assert_eq!(left.depth(), a.depth() + b.depth() + c.depth());
    // Appending a child of the root appends that child.
    assert_eq!(
        a.concat_address(root.get_child_address(SubNodeIndex::X1Y0Z0)),
        a.get_child_address(SubNodeIndex::X1Y0Z0)
    );
}

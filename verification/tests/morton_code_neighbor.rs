use atom_terrain::math::UVec3;
use atom_terrain::morton_code::MortonCode;
use atom_terrain::morton_code_neighbor::MortonCodeError;
use atom_terrain::tables::{EdgeIndex, FaceIndex, VertexIndex};

#[test]
fn test_children_morton_code_by_vertex() {
    let morton_code = MortonCode::encode([0, 0, 0].into(), 0);
    let children = morton_code.get_children_morton_code_by_vertex(VertexIndex::X0Y0Z0);
    assert_eq!(children.len(), 1);
    assert_eq!(children[0].level(), 1);
    assert_eq!(children[0].decode(), UVec3::new(0, 0, 0));
}

#[test]
fn test_children_morton_code_by_edge() {
    let morton_code = MortonCode::encode([0, 0, 0].into(), 0);
    let children = morton_code.get_children_morton_code_by_edge(EdgeIndex::XAxisY0Z0);
    assert_eq!(children.len(), 2);
    assert_eq!(children[0].level(), 1);
    assert_eq!(children[1].level(), 1);
    assert_eq!(children[0].decode(), UVec3::new(0, 0, 0));
    assert_eq!(children[1].decode(), UVec3::new(1, 0, 0));
}

#[test]
fn test_hierarchy_morton_code_by_face() {
    let morton_code = MortonCode::encode([0, 2, 0].into(), 3);

    let children = morton_code.get_children_morton_code_by_face(FaceIndex::Left);
    let mut children_vec = vec![];
    for child in children {
        let children = child.get_children_morton_code_by_face(FaceIndex::Left);
        children_vec.extend(children);
    }
    for child in children_vec {
        assert_eq!(child.parent().unwrap().parent().unwrap(), morton_code);
    }
}

#[test]
fn test_children_morton_code_by_face() {
    let morton_code = MortonCode::encode([0, 0, 0].into(), 0);
    let children = morton_code.get_children_morton_code_by_face(FaceIndex::Left);
    assert_eq!(children.len(), 4);
    assert_eq!(children[0].level(), 1);
    assert_eq!(children[1].level(), 1);
    assert_eq!(children[2].level(), 1);
    assert_eq!(children[3].level(), 1);
    assert_eq!(children[0].decode(), UVec3::new(0, 0, 0));
    assert_eq!(children[1].decode(), UVec3::new(0, 1, 0));
    assert_eq!(children[2].decode(), UVec3::new(0, 0, 1));
    assert_eq!(children[3].decode(), UVec3::new(0, 1, 1));
}

#[test]
fn test_neighbor_face_twin() {
    let morton_code = MortonCode::encode([0, 0, 0].into(), 3);
    assert_eq!(
        morton_code,
        morton_code
            .get_neighbor_face_morton_code(FaceIndex::Right)
            .unwrap()
            .get_neighbor_face_morton_code(FaceIndex::Left)
            .unwrap()
    );
    assert_eq!(
        morton_code,
        morton_code
            .get_neighbor_face_morton_code(FaceIndex::Top)
            .unwrap()
            .get_neighbor_face_morton_code(FaceIndex::Bottom)
            .unwrap()
    );
}

#[test]
fn test_neighbor_face_grid_index() {
    let grid_index =
        MortonCode::get_neighbor_face_grid_index(UVec3::new(0, 0, 0), FaceIndex::Left);
    assert_eq!(grid_index, UVec3::new(u32::MAX, 0, 0));
}

#[test]
fn test_neighbor_morton_code_by_face() {
    let morton_code = MortonCode::encode([0, 0, 0].into(), 0);
    let children = morton_code.get_neighbor_face_morton_code(FaceIndex::Left);
    assert!(children.is_err());

    let morton_code = MortonCode::encode([1, 0, 0].into(), 1);
    let neighbor_code = morton_code
        .get_neighbor_face_morton_code(FaceIndex::Left)
        .unwrap();
    assert_eq!(neighbor_code, MortonCode::encode([0, 0, 0].into(), 1));

    let morton_code = MortonCode::encode([2, 0, 0].into(), 2);
    let neighbor_code = morton_code
        .get_neighbor_face_morton_code(FaceIndex::Left)
        .unwrap();
    assert_eq!(neighbor_code, MortonCode::encode([1, 0, 0].into(), 2));
}

#[test]
fn test_neighbor_morton_code_by_edge() {
    let morton_code = MortonCode::encode([0, 0, 0].into(), 0);
    let children = morton_code.get_neighbor_edge_morton_code(EdgeIndex::XAxisY0Z0);
    assert!(children.is_err());

    let morton_code = MortonCode::encode([0, 0, 0].into(), 1);
    let children = morton_code.get_neighbor_edge_morton_code(EdgeIndex::YAxisX1Z0);
    assert!(children.is_err());

    let morton_code = MortonCode::encode([3, 4, 6].into(), 4);
    let children = morton_code
        .get_neighbor_edge_morton_code(EdgeIndex::YAxisX1Z0)
        .unwrap();
    assert_eq!(children.level(), 4);
    assert_eq!(children.decode(), UVec3::new(4, 4, 5));

    let morton_code = MortonCode::encode([3, 4, 6].into(), 4);
    let nei = morton_code
        .get_neighbor_edge_morton_code(EdgeIndex::YAxisX0Z0)
        .unwrap();
    assert_eq!(nei.level(), 4);
    assert_eq!(nei.decode(), UVec3::new(2, 4, 5));

    let children = nei.get_children_morton_code_by_edge(EdgeIndex::YAxisX0Z0);
    assert_eq!(children[0].decode(), UVec3::new(4, 8, 10));
    assert_eq!(children[1].decode(), UVec3::new(4, 9, 10));
}

#[test]
fn test_neighbor_morton_code_by_vertex() {
    let morton_code = MortonCode::encode([0, 0, 0].into(), 0);
    let children = morton_code.get_neighbor_vertex_morton_code(VertexIndex::X0Y0Z0);
    assert!(children.is_err());

    let morton_code = MortonCode::encode([0, 0, 1].into(), 1);
    let children = morton_code.get_neighbor_vertex_morton_code(VertexIndex::X1Y1Z1);
    assert!(children.is_err());

    let morton_code = MortonCode::encode([3, 4, 6].into(), 4);
    let children = morton_code
        .get_neighbor_vertex_morton_code(VertexIndex::X1Y0Z0)
        .unwrap();
    assert_eq!(children.level(), 4);
    assert_eq!(children.decode(), UVec3::new(4, 3, 5));
}

#[test]
fn test_neighbor_depth_and_grid_size() {
    let morton_code = MortonCode::encode([128, 128, 129].into(), 8);

    println!("morton node: {:?}", morton_code.decode());
    let front_code = morton_code
        .get_neighbor_face_morton_code(FaceIndex::Front)
        .unwrap();
    println!("front node: {:?}", front_code.decode());
    let front_children = front_code.get_children_morton_code_by_face(FaceIndex::Back);
    assert_eq!(front_children.len(), 4);
    for child in front_children {
        println!("front node: {:?}", child.decode());
    }
    let right_code = morton_code
        .get_neighbor_face_morton_code(FaceIndex::Right)
        .unwrap();
    println!("right node: {:?}", right_code.decode());
    let right_children = right_code.get_children_morton_code_by_face(FaceIndex::Left);
    assert_eq!(right_children.len(), 4);
    for child in right_children {
        println!("right node: {:?}", child.decode());
    }
}

#[test]
fn encode_decode_round_trip() {
    for level in [0u8, 1, 5, 21] {
        let max = if level == 0 { 0 } else { (1u32 << level) - 1 };
        for p in [[0, 0, 0], [max, 0, max / 2], [max / 3, max, 1.min(max)]] {
            let c = MortonCode::encode(p.into(), level);
            assert_eq!(c.level(), level);
            assert_eq!(c.decode(), UVec3::new(p[0], p[1], p[2]));
        }
    }
}

#[test]
fn neighbor_error_variant_at_grid_border() {
    let c = MortonCode::encode([3, 0, 3].into(), 2);
    assert_eq!(
        c.get_neighbor_face_morton_code(FaceIndex::Right),
        Err(MortonCodeError::CellIndexOutOfRange)
    );
    assert_eq!(
        c.get_neighbor_face_morton_code(FaceIndex::Bottom),
        Err(MortonCodeError::CellIndexOutOfRange)
    );
    assert_eq!(
        c.get_neighbor_face_morton_code(FaceIndex::Top).unwrap().decode(),
        UVec3::new(3, 1, 3)
    );
}

#[test]
fn children_at_deepest_level_are_none() {
    let c = MortonCode::encode([5, 6, 7].into(), 21);
    assert!(c.child(VertexIndex::X0Y0Z0).is_none());
    assert!(c.get_children_morton_code_by_face(FaceIndex::Left).is_empty());
    assert!(c.get_children_morton_code_by_edge(EdgeIndex::XAxisY0Z0).is_empty());
    assert!(c.get_children_morton_code_by_vertex(VertexIndex::X1Y1Z1).is_empty());
    assert_eq!(MortonCode::root().parent(), None);
}

#[test]
fn parent_of_child_is_cell() {
    let c = MortonCode::encode([2, 3, 1].into(), 3);
    for i in 0..8 {
        let v = VertexIndex::from_repr(i).unwrap();
        let child = c.child(v).unwrap();
        assert_eq!(child.parent().unwrap(), c);
        let a = v.to_array();
        assert_eq!(
            child.decode(),
            UVec3::new(4 + a[0] as u32, 6 + a[1] as u32, 2 + a[2] as u32)
        );
    }
}

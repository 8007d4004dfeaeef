use atom_terrain::csg::CSGOperateType;

#[test]
fn test_csg_operate_type_to_index() {
    let all = [
        CSGOperateType::Round,
        CSGOperateType::Union,
        CSGOperateType::Difference,
        CSGOperateType::Intersection,
        CSGOperateType::SmoothUnion,
        CSGOperateType::SmoothDifference,
        CSGOperateType::SmoothIntersection,
    ];
    for (i, op) in all.iter().enumerate() {
        assert_eq!(op.to_index(), i as u32);
    }
}

#[test]
fn test_falloff_map() {}

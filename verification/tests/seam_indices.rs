use atom_terrain::math::{UVec3, UVec4};
use atom_terrain::seam_indices::{
    compute_indices_on_axis, compute_indices_x_axis, compute_indices_y_axis,
    compute_indices_z_axis, compute_x_axis_indices, compute_y_axis_indices,
    compute_z_axis_indices, get_lod_scale, get_seam_voxel_stride, get_voxel_internal_vertex_index,
    set_block_vertex, set_value, ComputeIndicesContext,
    U32_MAX,
};

fn context(map: Vec<usize>, capacity: usize) -> ComputeIndicesContext {
    ComputeIndicesContext {
        mesh_vertex_map: map,
        mesh_indices_data: vec![0; capacity],
        mesh_indices_num: 0,
    }
}

/// The corners of a voxel cut by a horizontal surface: the upper four lie
/// outside.
fn upper_corners_outside() -> [bool; 8] {
    let mut c = [false; 8];
    for (k, side) in c.iter_mut().enumerate() {
        *side = k & 2 != 0;
    }
    c
}

#[test]
fn test_voxel_internal_vertex_index() {
    assert_eq!(
        get_voxel_internal_vertex_index(UVec3::new(2, 33, 33), 1, 2, 3),
        1 + 2 * 2 + 3 * 2 * 33
    );
    assert_eq!(get_voxel_internal_vertex_index(UVec3::new(4, 4, 4), 0, 0, 0), 0);
    assert_eq!(get_voxel_internal_vertex_index(UVec3::new(4, 4, 4), 3, 3, 3), 63);
}

#[test]
fn test_set_value_fills_in_order_without_repeats() {
    let mut a = UVec4::new(U32_MAX, U32_MAX, U32_MAX, U32_MAX);
    set_value(&mut a, 7);
    set_value(&mut a, 7);
    set_value(&mut a, 3);
    set_value(&mut a, U32_MAX as usize);
    assert_eq!(a, UVec4::new(7, 3, U32_MAX, U32_MAX));
    set_value(&mut a, 9);
    set_value(&mut a, 1);
    set_value(&mut a, 2);
    assert_eq!(a, UVec4::new(7, 3, 9, 1));
}

#[test]
fn test_edge_with_four_vertices_gives_two_triangles() {
    let mut ctx = context(vec![10, 11, 12, 13], 6);
    compute_indices_on_axis(&mut ctx, true, false, 0, 1, 2, 3);
    assert_eq!(ctx.mesh_indices_num, 6);
    assert_eq!(ctx.mesh_indices_data, vec![10, 11, 13, 10, 13, 12]);

    let mut ctx = context(vec![10, 11, 12, 13], 6);
    compute_indices_on_axis(&mut ctx, false, true, 0, 1, 2, 3);
    assert_eq!(ctx.mesh_indices_num, 6);
    assert_eq!(ctx.mesh_indices_data, vec![10, 13, 11, 10, 12, 13]);
}

#[test]
fn test_edge_with_three_vertices_gives_one_triangle() {
    let mut ctx = context(vec![10, 10, 12, 13], 6);
    compute_indices_on_axis(&mut ctx, true, false, 0, 1, 2, 3);
    assert_eq!(ctx.mesh_indices_num, 3);
    assert_eq!(ctx.mesh_indices_data, vec![10, 13, 12, 0, 0, 0]);
}

#[test]
fn test_edge_on_one_side_or_without_vertices_gives_nothing() {
    let mut ctx = context(vec![10, 11, 12, 13], 6);
    compute_indices_on_axis(&mut ctx, true, true, 0, 1, 2, 3);
    compute_indices_on_axis(&mut ctx, false, false, 0, 1, 2, 3);
    assert_eq!(ctx.mesh_indices_num, 0);

    let none = U32_MAX as usize;
    let mut ctx = context(vec![10, none, none, 13], 6);
    compute_indices_on_axis(&mut ctx, true, false, 0, 1, 2, 3);
    assert_eq!(ctx.mesh_indices_num, 0);
    assert_eq!(ctx.mesh_indices_data, vec![0; 6]);
}

#[test]
fn test_edge_flip_reverses_winding() {
    let mut a = context(vec![4, 5, 6, 7], 6);
    let mut b = context(vec![4, 5, 6, 7], 6);
    compute_indices_on_axis(&mut a, true, false, 0, 1, 2, 3);
    compute_indices_on_axis(&mut b, false, true, 0, 1, 2, 3);
    for m in 0..2 {
        assert_eq!(a.mesh_indices_data[3 * m], b.mesh_indices_data[3 * m]);
        assert_eq!(a.mesh_indices_data[3 * m + 1], b.mesh_indices_data[3 * m + 2]);
        assert_eq!(a.mesh_indices_data[3 * m + 2], b.mesh_indices_data[3 * m + 1]);
    }
}

#[test]
fn test_z_seam_voxel() {
    let map: Vec<usize> = (0..8).collect();
    let corners = upper_corners_outside();
    let mut ctx = context(map.clone(), 18);
    compute_indices_z_axis(&mut ctx, 1, UVec3::new(0, 0, 0), corners);
    assert_eq!(ctx.mesh_indices_num, 6);
    assert_eq!(&ctx.mesh_indices_data[..6], &[0, 5, 1, 0, 4, 5]);

    // Past the seam: nothing.
    let mut ctx = context(map.clone(), 18);
    compute_indices_z_axis(&mut ctx, 1, UVec3::new(2, 0, 0), corners);
    assert_eq!(ctx.mesh_indices_num, 0);

    // On the far face in x: no edge of the voxel has its four voxels.
    let mut ctx = context(map, 18);
    compute_indices_z_axis(&mut ctx, 1, UVec3::new(1, 0, 0), corners);
    assert_eq!(ctx.mesh_indices_num, 0);
}

#[test]
fn test_x_and_y_seam_voxels() {
    let map: Vec<usize> = (0..8).collect();
    let corners = upper_corners_outside();
    let mut ctx = context(map.clone(), 18);
    compute_indices_x_axis(&mut ctx, 1, UVec3::new(0, 0, 0), corners);
    assert_eq!(ctx.mesh_indices_num, 6);
    assert_eq!(&ctx.mesh_indices_data[..6], &[0, 5, 1, 0, 4, 5]);

    let mut ctx = context(map, 18);
    compute_indices_y_axis(&mut ctx, 1, UVec3::new(0, 0, 0), corners);
    assert_eq!(ctx.mesh_indices_num, 6);
    assert_eq!(&ctx.mesh_indices_data[..6], &[0, 5, 1, 0, 4, 5]);
}

#[test]
fn test_whole_z_seam() {
    let map: Vec<usize> = (0..8).collect();
    let corners = vec![upper_corners_outside(); 8];
    let ctx = compute_z_axis_indices(1, map.clone(), &corners);
    assert_eq!(ctx.mesh_vertex_map, map);
    assert_eq!(ctx.mesh_indices_num, 12);
    assert_eq!(ctx.mesh_indices_data.len(), 8 * 18);
    assert_eq!(
        &ctx.mesh_indices_data[..12],
        &[0, 5, 1, 0, 4, 5, 2, 7, 3, 2, 6, 7]
    );
    assert!(ctx.mesh_indices_data[12..].iter().all(|&i| i == 0));
}

#[test]
fn test_whole_x_and_y_seams_use_only_vertices() {
    let n: u32 = 2;
    let count = (2 * (n + 1) * (n + 1)) as usize;
    let map: Vec<usize> = (0..count).map(|v| 100 + v).collect();
    let corners = vec![upper_corners_outside(); count];
    for ctx in [
        compute_x_axis_indices(n, map.clone(), &corners),
        compute_y_axis_indices(n, map.clone(), &corners),
    ] {
        assert!(ctx.mesh_indices_num > 0);
        assert_eq!(ctx.mesh_indices_num % 3, 0);
        for &i in &ctx.mesh_indices_data[..ctx.mesh_indices_num] {
            assert!(map.contains(&i));
        }
    }
}

#[test]
fn test_lod_scale() {
    assert_eq!(get_lod_scale(0), 1);
    assert_eq!(get_lod_scale(3), 8);
    assert_eq!(get_lod_scale(31), 1 << 31);
    assert_eq!(get_lod_scale(32), u32::MAX);
}

#[test]
fn test_seam_voxel_stride() {
    // Every half chunk at level of detail 1 but the one the first x seam
    // voxel lies in (chunk 0, lower half in z, upper half in x) at 0.
    let mut lods = [UVec4::new(1, 1, 1, 1); 16];
    lods[0] = UVec4::new(1, 0, 1, 1);
    // x seam of a chunk of 4 voxels: the voxel (0, 0, 0) lies in chunk 0.
    assert_eq!(
        get_seam_voxel_stride(0, 4, &lods, UVec3::new(0, 0, 0)),
        Some(UVec3::new(1, 1, 1))
    );
    // (1, 0, 0) lies in chunk 1 (across the face in x), at level 1.
    assert_eq!(
        get_seam_voxel_stride(0, 4, &lods, UVec3::new(1, 0, 0)),
        Some(UVec3::new(1, 2, 2))
    );
    // (1, 1, 0) lies inside the block that (1, 0, 0) starts.
    assert_eq!(get_seam_voxel_stride(0, 4, &lods, UVec3::new(1, 1, 0)), None);
    // Past the seam.
    assert_eq!(get_seam_voxel_stride(0, 4, &lods, UVec3::new(0, 5, 0)), None);
    // The z seam: voxel (2, 2, 1) lies in chunk 4 + 0, upper half in x and y.
    lods[8] = UVec4::new(1, 1, 1, 2);
    assert_eq!(
        get_seam_voxel_stride(2, 4, &lods, UVec3::new(2, 2, 1)),
        None
    );
    assert_eq!(
        get_seam_voxel_stride(2, 4, &lods, UVec3::new(0, 0, 1)),
        Some(UVec3::new(2, 2, 1))
    );
}

#[test]
fn test_set_block_vertex() {
    let size = UVec3::new(2, 3, 3);
    let mut map = vec![0usize; 18];
    set_block_vertex(&mut map, UVec3::new(1, 2, 1), UVec3::new(1, 2, 2), size, 7);
    // The block reaches (1, 2..4, 1..3); inside the seam: (1, 2, 1), (1, 2, 2).
    let marked: Vec<usize> = (0..18).filter(|&v| map[v] == 7).collect();
    assert_eq!(
        marked,
        vec![
            get_voxel_internal_vertex_index(size, 1, 2, 1),
            get_voxel_internal_vertex_index(size, 1, 2, 2)
        ]
    );
    let mut map = vec![5usize; 18];
    set_block_vertex(&mut map, UVec3::new(0, 0, 0), UVec3::new(1, 2, 2), size, U32_MAX as usize);
    assert_eq!(map.iter().filter(|&&v| v == U32_MAX as usize).count(), 4);
}

# atom_terrain

The logic of a voxel terrain engine, with its behaviour stated in contracts
and proved by Verus.

- `src/` is the verified library:
  - `tables`, `dc_tables`: the vertices, edges and faces of a cube and the
    tables that walk them.
  - `address`, `coord_address`: packed octree node addresses, their
    neighbour walks, and the address of every cell of a chunk's grid.
  - `morton_code`, `morton_code_neighbor`: Morton codes of octree cells,
    their parents, children and neighbours.
  - `lod_octree`, `lod_weight`, `neighbor_query`: the level-of-detail
    octree, its update from the root down, how its leaves tile the root
    cell, and the searches for neighbouring leaves.
  - `dc_octree`, `simplify`, `dual_contouring`, `visit_order`: the octree
    that dual contouring builds from sample signs, simplifies and walks, and
    the order in which the walk visits leaves and quads.
  - `seam_indices`, `seam_connect`, `buffer_type`, `biome`: the index
    passes that stitch the seams between chunks, the records they read, and
    the biome that a voxel's corners vote for.
  - `csg`, `math`: edit kinds and small vector types.
- `tests/` runs the library on concrete values.
- `app/` holds what the library leaves out: floating-point densities, CSG
  trees, the falloff at the map's edge, the LOD divide test by distance,
  text formatting and error traits.

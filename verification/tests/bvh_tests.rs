use path_tracing::aabb::Vec3Bits;
use path_tracing::binary32::NO_INDEX;
use path_tracing::bvh::{check_mesh_tris, generate, BvhTriangle};
use path_tracing::data::{BvhNode, GpuMesh, GpuVertex, MeshData};

fn bv3(x: f32, y: f32, z: f32) -> Vec3Bits {
    Vec3Bits { x: x.to_bits(), y: y.to_bits(), z: z.to_bits() }
}

fn bvert(x: f32, y: f32, z: f32) -> GpuVertex {
    GpuVertex {
        position: bv3(x, y, z),
        normal: bv3(0.0, 0.0, 1.0),
        uv: path_tracing::aabb::Vec2Bits { x: 0.0f32.to_bits(), y: 0.0f32.to_bits() },
    }
}

fn bmesh_data(coords: &[[f32; 3]], indices: &[u32]) -> MeshData {
    MeshData {
        indices: indices.to_vec(),
        vertices: coords.iter().map(|c| bvert(c[0], c[1], c[2])).collect(),
    }
}

fn is_leaf(n: &BvhNode) -> bool {
    n.shape_index != NO_INDEX
}

fn is_internal(n: &BvhNode) -> bool {
    n.shape_index == NO_INDEX && n.entry_index != NO_INDEX
}

fn fmin(a: f32, b: f32) -> f32 {
    if a <= b {
        a
    } else {
        b
    }
}

fn fmax(a: f32, b: f32) -> f32 {
    if a >= b {
        a
    } else {
        b
    }
}

#[test]
fn single_triangle_one_leaf() {
    // Scenario: a single-triangle mesh yields one leaf node with shape 0
    // and the triangle's own bound.
    let md = bmesh_data(
        &[[0.0, 0.0, 0.0], [2.0, 0.0, 0.0], [0.0, 3.0, 1.0]],
        &[0, 1, 2],
    );
    let mesh = GpuMesh {
        aabb_min: bv3(0.0, 0.0, 0.0),
        aabb_max: bv3(2.0, 3.0, 1.0),
        ihead: 0,
        vhead: 0,
        tri_count: 1,
    };
    assert!(check_mesh_tris(&mesh, &md));
    let mut nodes: Vec<BvhNode> = Vec::new();
    let total = generate(&mesh, &md, &mut nodes);
    assert_eq!(total, 1);
    assert_eq!(nodes.len(), 1);
    let n = &nodes[0];
    assert_eq!(n.shape_index, 0);
    assert_eq!(n.entry_index, NO_INDEX);
    assert_eq!(n.exit_index, 1);
    assert_eq!(n.aabb_min, bv3(0.0, 0.0, 0.0));
    assert_eq!(n.aabb_max, bv3(2.0, 3.0, 1.0));
}

#[test]
fn empty_mesh_single_marker_node() {
    let md = bmesh_data(&[], &[]);
    let mesh = GpuMesh {
        aabb_min: bv3(0.0, 0.0, 0.0),
        aabb_max: bv3(0.0, 0.0, 0.0),
        ihead: 0,
        vhead: 0,
        tri_count: 0,
    };
    let mut nodes: Vec<BvhNode> = Vec::new();
    let total = generate(&mesh, &md, &mut nodes);
    assert_eq!(total, 1);
    assert_eq!(nodes.len(), 1);
    assert_eq!(nodes[0].shape_index, NO_INDEX);
    assert_eq!(nodes[0].entry_index, NO_INDEX);
    assert_eq!(nodes[0].exit_index, 1);
    // The empty bound: positive infinity below, negative infinity above.
    assert_eq!(nodes[0].aabb_min.x, f32::INFINITY.to_bits());
    assert_eq!(nodes[0].aabb_max.x, f32::NEG_INFINITY.to_bits());
}

#[test]
fn two_triangles_leaves_and_union() {
    let md = bmesh_data(
        &[
            [0.0, 0.0, 0.0],
            [1.0, 0.0, 0.0],
            [1.0, 1.0, 0.5],
            [0.0, 1.0, -0.5],
        ],
        &[0, 1, 2, 0, 2, 3],
    );
    let mesh = GpuMesh {
        aabb_min: bv3(0.0, 0.0, -0.5),
        aabb_max: bv3(1.0, 1.0, 0.5),
        ihead: 0,
        vhead: 0,
        tri_count: 2,
    };
    assert!(check_mesh_tris(&mesh, &md));
    let mut nodes: Vec<BvhNode> = Vec::new();
    let total = generate(&mesh, &md, &mut nodes);
    assert_eq!(total, 3);
    assert!(is_internal(&nodes[0]));
    assert_eq!(nodes[0].entry_index, 1);
    assert_eq!(nodes[0].exit_index, 3);
    // Exactly two leaves whose shapes are a permutation of {0, 1}.
    let shapes: Vec<u32> = nodes.iter().filter(|n| is_leaf(n)).map(|n| n.shape_index).collect();
    assert_eq!(shapes.len(), 2);
    assert!(shapes.contains(&0));
    assert!(shapes.contains(&1));
    // The root's bound is the union of its two children's bounds; the
    // second child is the node the first child's exit names.
    let l = 1usize;
    let r = nodes[1].exit_index as usize;
    assert!(l < r && r < nodes.len());
    for axis in 0..3usize {
        let getmin = |n: &BvhNode| match axis {
            0 => f32::from_bits(n.aabb_min.x),
            1 => f32::from_bits(n.aabb_min.y),
            _ => f32::from_bits(n.aabb_min.z),
        };
        let getmax = |n: &BvhNode| match axis {
            0 => f32::from_bits(n.aabb_max.x),
            1 => f32::from_bits(n.aabb_max.y),
            _ => f32::from_bits(n.aabb_max.z),
        };
        assert_eq!(getmin(&nodes[0]), fmin(getmin(&nodes[l]), getmin(&nodes[r])));
        assert_eq!(getmax(&nodes[0]), fmax(getmax(&nodes[l]), getmax(&nodes[r])));
    }
}

#[test]
fn many_triangles_permutation_and_internal_unions() {
    // A deterministic pseudo-random triangle soup: every internal node's
    // bound must equal the componentwise union of its two children's
    // bounds, and the leaf shapes must be a permutation of the slots.
    let mut state: u64 = 0x2545_F491_4F6C_DD1D;
    let mut coords: Vec<[f32; 3]> = Vec::new();
    let mut indices: Vec<u32> = Vec::new();
    let tri_count = 33u32;
    for t in 0..tri_count {
        for _ in 0..3 {
            let mut c = [0.0f32; 3];
            for slot in c.iter_mut() {
                state = state.wrapping_mul(6364136223846793005).wrapping_add(1442695040888963407);
                let raw = ((state >> 33) as u32 % 2000) as f32;
                *slot = raw / 100.0 - 10.0;
            }
            coords.push(c);
        }
        indices.push(3 * t);
        indices.push(3 * t + 1);
        indices.push(3 * t + 2);
    }
    let md = bmesh_data(&coords, &indices);
    let mesh = GpuMesh {
        aabb_min: bv3(-10.0, -10.0, -10.0),
        aabb_max: bv3(10.0, 10.0, 10.0),
        ihead: 0,
        vhead: 0,
        tri_count,
    };
    assert!(check_mesh_tris(&mesh, &md));
    let mut nodes: Vec<BvhNode> = Vec::new();
    let total = generate(&mesh, &md, &mut nodes);
    assert_eq!(total, 2 * tri_count - 1);

    let mut seen = vec![false; tri_count as usize];
    let mut leaves = 0usize;
    for (p, n) in nodes.iter().enumerate() {
        // Progress: the miss jump always lands strictly past the node.
        assert!((n.exit_index as usize) > p && (n.exit_index as usize) <= nodes.len());
        if is_leaf(n) {
            assert_eq!(n.entry_index, NO_INDEX);
            let s = n.shape_index as usize;
            assert!(s < tri_count as usize);
            assert!(!seen[s], "shape listed twice");
            seen[s] = true;
            leaves += 1;
        } else {
            assert!(is_internal(n));
            assert_eq!(n.entry_index as usize, p + 1);
            let l = p + 1;
            let r = nodes[l].exit_index as usize;
            assert!(l < r && r < nodes.len());
            for axis in 0..6usize {
                let get = |n: &BvhNode| -> u32 {
                    match axis {
                        0 => n.aabb_min.x,
                        1 => n.aabb_min.y,
                        2 => n.aabb_min.z,
                        3 => n.aabb_max.x,
                        4 => n.aabb_max.y,
                        _ => n.aabb_max.z,
                    }
                };
                let a = f32::from_bits(get(&nodes[l]));
                let b = f32::from_bits(get(&nodes[r]));
                let u = if axis < 3 { fmin(a, b) } else { fmax(a, b) };
                assert_eq!(f32::from_bits(get(n)), u);
            }
        }
    }
    assert_eq!(leaves, tri_count as usize);
    assert!(seen.iter().all(|&s| s));
}

#[test]
fn identical_triangles_still_split_to_one_leaf_each() {
    // All centroids coincide, so the centroid split finds no separating
    // plane and the builder falls back to half splits; the leaf guarantee
    // must hold regardless.
    let tri_count = 5u32;
    let mut coords: Vec<[f32; 3]> = Vec::new();
    let mut indices: Vec<u32> = Vec::new();
    for t in 0..tri_count {
        coords.push([0.0, 0.0, 0.0]);
        coords.push([1.0, 0.0, 0.0]);
        coords.push([0.0, 1.0, 0.0]);
        indices.push(3 * t);
        indices.push(3 * t + 1);
        indices.push(3 * t + 2);
    }
    let md = bmesh_data(&coords, &indices);
    let mesh = GpuMesh {
        aabb_min: bv3(0.0, 0.0, 0.0),
        aabb_max: bv3(1.0, 1.0, 0.0),
        ihead: 0,
        vhead: 0,
        tri_count,
    };
    let mut nodes: Vec<BvhNode> = Vec::new();
    let total = generate(&mesh, &md, &mut nodes);
    assert_eq!(total, 2 * tri_count - 1);
    let mut seen = vec![false; tri_count as usize];
    for n in nodes.iter().filter(|n| is_leaf(n)) {
        assert!(!seen[n.shape_index as usize]);
        seen[n.shape_index as usize] = true;
    }
    assert!(seen.iter().all(|&s| s));
}

#[test]
fn generate_appends_after_existing_nodes() {
    let md = bmesh_data(
        &[[0.0, 0.0, 0.0], [1.0, 0.0, 0.0], [0.0, 1.0, 0.0]],
        &[0, 1, 2],
    );
    let mesh = GpuMesh {
        aabb_min: bv3(0.0, 0.0, 0.0),
        aabb_max: bv3(1.0, 1.0, 0.0),
        ihead: 0,
        vhead: 0,
        tri_count: 1,
    };
    let mut nodes: Vec<BvhNode> = Vec::new();
    let first = generate(&mesh, &md, &mut nodes);
    let second = generate(&mesh, &md, &mut nodes);
    assert_eq!(first, 1);
    assert_eq!(second, 1);
    assert_eq!(nodes.len(), 2);
    // Each block's first node exits right past its own block.
    assert_eq!(nodes[0].exit_index, 1);
    assert_eq!(nodes[1].exit_index, 2);
}

#[test]
fn check_mesh_tris_rejects_bad_regions() {
    let md = bmesh_data(
        &[[0.0, 0.0, 0.0], [1.0, 0.0, 0.0], [0.0, 1.0, 0.0]],
        &[0, 1, 7],
    );
    let mesh = GpuMesh {
        aabb_min: bv3(0.0, 0.0, 0.0),
        aabb_max: bv3(1.0, 1.0, 0.0),
        ihead: 0,
        vhead: 0,
        tri_count: 1,
    };
    // Index 7 names no vertex.
    assert!(!check_mesh_tris(&mesh, &md));
    // A region past the index pool's end.
    let mesh2 = GpuMesh { tri_count: 2, ..mesh };
    assert!(!check_mesh_tris(&mesh2, &md));
}

#[test]
fn bvh_triangle_records_its_bound_and_node() {
    let b = path_tracing::aabb::Aabb { min: bv3(0.0, -1.0, 2.0), max: bv3(1.0, 0.0, 3.0) };
    let mut t = BvhTriangle { aabb_min: b.min, aabb_max: b.max, node_index: 0 };
    assert_eq!(t.aabb(), b);
    t.set_bh_node_index(5);
    assert_eq!(t.bh_node_index(), 5);
}

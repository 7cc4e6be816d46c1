use path_tracing::aabb::{Vec2Bits, Vec3Bits};
use path_tracing::data::{AssetEvent, Indices, MeshSource, RayTraceMeta, VertexAttributeValues};
use path_tracing::extract::{
    extract_meshes, prepare_meshes, EncodeError, ProcessedMeshes, VertexSlot,
};
use path_tracing::publish::take_dirty_groups;
use path_tracing::table::IdTable;

fn mv3(x: f32, y: f32, z: f32) -> Vec3Bits {
    Vec3Bits { x: x.to_bits(), y: y.to_bits(), z: z.to_bits() }
}

fn mv2(x: f32, y: f32) -> Vec2Bits {
    Vec2Bits { x: x.to_bits(), y: y.to_bits() }
}

fn quad_source() -> MeshSource {
    // Two triangles sharing an edge: four unique vertices, six indices.
    let positions = vec![
        mv3(0.0, 0.0, 0.0),
        mv3(1.0, 0.0, 0.0),
        mv3(1.0, 1.0, 0.0),
        mv3(0.0, 1.0, 0.0),
    ];
    let normals = vec![
        mv3(0.0, 0.0, 1.0),
        mv3(0.0, 0.0, 1.0),
        mv3(0.0, 0.0, 1.0),
        mv3(0.0, 0.0, 1.0),
    ];
    let uvs = vec![mv2(0.0, 0.0), mv2(1.0, 0.0), mv2(1.0, 1.0), mv2(0.0, 1.0)];
    MeshSource {
        positions: Some(VertexAttributeValues::Float32x3(positions)),
        normals: Some(VertexAttributeValues::Float32x3(normals)),
        uvs: Some(VertexAttributeValues::Float32x2(uvs)),
        indices: Some(Indices::U32(vec![0, 1, 2, 0, 2, 3])),
    }
}

fn fresh_meta() -> RayTraceMeta {
    RayTraceMeta {
        objects: Vec::new(),
        emissives: Vec::new(),
        meshes: Vec::new(),
        indices: Vec::new(),
        vertices: Vec::new(),
        handle_to_material: IdTable::new(),
        handle_to_texture: IdTable::new(),
        materials: Vec::new(),
        textures: Vec::new(),
        texture_data: path_tracing::data::TextureData { data: Vec::new() },
        dirty: path_tracing::data::DirtyFlags {
            objects: false,
            emissives: false,
            meshes: false,
            indices: false,
            vertices: false,
            materials: false,
            textures: false,
            texture_data: false,
        },
    }
}

#[test]
fn shared_edge_quad_flattens_to_expected_record() {
    // Scenario: a two-triangle mesh sharing an edge encodes to vhead 0,
    // ihead 0, two triangles, four vertices, six indices.
    let mut store = ProcessedMeshes::new();
    let events = vec![AssetEvent::Added { id: 11 }];
    let assets = vec![(11u64, quad_source())];
    let reports = extract_meshes(&events, &assets, &mut store);
    assert!(reports.is_empty());
    assert_eq!(store.meshes.len(), 1);
    assert!(store.changed);

    let mut meta = fresh_meta();
    let wrote = prepare_meshes(&mut store, &mut meta);
    assert!(wrote);
    assert!(!store.changed);
    assert_eq!(meta.meshes.len(), 1);
    let gm = meta.meshes[0];
    assert_eq!(gm.vhead, 0);
    assert_eq!(gm.ihead, 0);
    assert_eq!(gm.tri_count, 2);
    assert_eq!(meta.vertices.len(), 4);
    assert_eq!(meta.indices.len(), 6);
    assert_eq!(meta.indices, vec![0, 1, 2, 0, 2, 3]);
    assert_eq!(gm.aabb_min, mv3(0.0, 0.0, 0.0));
    assert_eq!(gm.aabb_max, mv3(1.0, 1.0, 0.0));
    assert!(meta.dirty.meshes && meta.dirty.indices && meta.dirty.vertices);
}

#[test]
fn reencoding_unchanged_mesh_is_byte_identical() {
    // Idempotence: a second Modified event with the same source leaves an
    // identical record and identical flattened pools.
    let mut store = ProcessedMeshes::new();
    let assets = vec![(7u64, quad_source())];
    let added = vec![AssetEvent::Added { id: 7 }];
    extract_meshes(&added, &assets, &mut store);
    let mut meta1 = fresh_meta();
    prepare_meshes(&mut store, &mut meta1);

    let modified = vec![AssetEvent::Modified { id: 7 }];
    extract_meshes(&modified, &assets, &mut store);
    assert!(store.changed);
    let mut meta2 = fresh_meta();
    prepare_meshes(&mut store, &mut meta2);

    assert_eq!(meta1.meshes, meta2.meshes);
    assert_eq!(meta1.indices, meta2.indices);
    assert_eq!(meta1.vertices, meta2.vertices);
}

#[test]
fn table_sizes_through_add_add_add_remove_middle() {
    // Scenario: three assets added one at a time, then the middle one
    // removed: sizes 0, 1, 2, 3, then 2, and the third asset's slot
    // shifts from 2 to 1.
    let mut store = ProcessedMeshes::new();
    let assets = vec![
        (1u64, quad_source()),
        (2u64, quad_source()),
        (3u64, quad_source()),
    ];
    assert_eq!(store.asset_to_index.len(), 0);
    extract_meshes(&vec![AssetEvent::Added { id: 1 }], &assets, &mut store);
    assert_eq!(store.asset_to_index.len(), 1);
    extract_meshes(&vec![AssetEvent::Added { id: 2 }], &assets, &mut store);
    assert_eq!(store.asset_to_index.len(), 2);
    extract_meshes(&vec![AssetEvent::Added { id: 3 }], &assets, &mut store);
    assert_eq!(store.asset_to_index.len(), 3);
    assert_eq!(store.asset_to_index.slot_of(3), Some(2));
    extract_meshes(&vec![AssetEvent::Removed { id: 2 }], &assets, &mut store);
    assert_eq!(store.asset_to_index.len(), 2);
    assert_eq!(store.asset_to_index.slot_of(1), Some(0));
    assert_eq!(store.asset_to_index.slot_of(3), Some(1));
    assert_eq!(store.asset_to_index.slot_of(2), None);
}

#[test]
fn removal_shifts_larger_slots_down() {
    let mut table = IdTable::new();
    for id in [10u64, 20, 30, 40, 50] {
        table.push_id(id);
    }
    assert_eq!(table.remove_id(30), Some(2));
    assert_eq!(table.len(), 4);
    assert_eq!(table.slot_of(10), Some(0));
    assert_eq!(table.slot_of(20), Some(1));
    assert_eq!(table.slot_of(40), Some(2));
    assert_eq!(table.slot_of(50), Some(3));
    assert_eq!(table.slot_of(30), None);
    // Removing an unregistered identity changes nothing.
    assert_eq!(table.remove_id(30), None);
    assert_eq!(table.len(), 4);
}

#[test]
fn missing_attribute_is_reported_and_skipped() {
    let mut src = quad_source();
    src.positions = None;
    let mut store = ProcessedMeshes::new();
    let events = vec![AssetEvent::Added { id: 4 }];
    let reports = extract_meshes(&events, &vec![(4u64, src)], &mut store);
    assert_eq!(
        reports,
        vec![(4u64, EncodeError::MissingAttribute(VertexSlot::Position))]
    );
    assert_eq!(store.meshes.len(), 0);
    assert!(store.changed);
}

#[test]
fn unsupported_attribute_layout_is_reported() {
    let mut src = quad_source();
    src.normals = Some(VertexAttributeValues::Unsupported);
    let mut store = ProcessedMeshes::new();
    let reports = extract_meshes(
        &vec![AssetEvent::Added { id: 5 }],
        &vec![(5u64, src)],
        &mut store,
    );
    assert_eq!(
        reports,
        vec![(5u64, EncodeError::UnsupportedAttribute(VertexSlot::Normal))]
    );
}

#[test]
fn missing_indices_is_reported() {
    let mut src = quad_source();
    src.indices = None;
    let mut store = ProcessedMeshes::new();
    let reports = extract_meshes(
        &vec![AssetEvent::Added { id: 6 }],
        &vec![(6u64, src)],
        &mut store,
    );
    assert_eq!(reports, vec![(6u64, EncodeError::MissingIndices)]);
}

#[test]
fn missing_source_is_reported() {
    let mut store = ProcessedMeshes::new();
    let reports = extract_meshes(
        &vec![AssetEvent::Added { id: 9 }],
        &Vec::new(),
        &mut store,
    );
    assert_eq!(reports, vec![(9u64, EncodeError::MissingSource)]);
    assert_eq!(store.meshes.len(), 0);
}

#[test]
fn sixteen_bit_indices_are_promoted() {
    let mut src = quad_source();
    src.indices = Some(Indices::U16(vec![0, 1, 2, 0, 2, 3]));
    let mut store = ProcessedMeshes::new();
    extract_meshes(
        &vec![AssetEvent::Added { id: 8 }],
        &vec![(8u64, src)],
        &mut store,
    );
    assert_eq!(store.meshes[0].indices, vec![0u32, 1, 2, 0, 2, 3]);
}

#[test]
fn attribute_walk_stops_at_shortest_array() {
    let mut src = quad_source();
    // Only two normals: two vertex records come out.
    src.normals = Some(VertexAttributeValues::Float32x3(vec![
        mv3(0.0, 0.0, 1.0),
        mv3(0.0, 0.0, 1.0),
    ]));
    let mut store = ProcessedMeshes::new();
    extract_meshes(
        &vec![AssetEvent::Added { id: 2 }],
        &vec![(2u64, src)],
        &mut store,
    );
    assert_eq!(store.meshes[0].vertices.len(), 2);
    // The bound folds only the encoded positions.
    assert_eq!(store.meshes[0].aabb_max, mv3(1.0, 0.0, 0.0));
}

#[test]
fn removal_forces_full_reflatten_without_the_asset() {
    let mut store = ProcessedMeshes::new();
    let assets = vec![(1u64, quad_source()), (2u64, quad_source())];
    extract_meshes(
        &vec![AssetEvent::Added { id: 1 }, AssetEvent::Added { id: 2 }],
        &assets,
        &mut store,
    );
    let mut meta = fresh_meta();
    prepare_meshes(&mut store, &mut meta);
    assert_eq!(meta.meshes.len(), 2);
    assert_eq!(meta.meshes[1].vhead, 4);
    assert_eq!(meta.meshes[1].ihead, 6);
    let _ = take_dirty_groups(&mut meta);

    extract_meshes(&vec![AssetEvent::Removed { id: 1 }], &assets, &mut store);
    assert!(store.changed);
    let wrote = prepare_meshes(&mut store, &mut meta);
    assert!(wrote);
    assert_eq!(meta.meshes.len(), 1);
    assert_eq!(meta.meshes[0].vhead, 0);
    assert_eq!(meta.meshes[0].ihead, 0);
    assert_eq!(meta.vertices.len(), 4);
    assert_eq!(meta.indices.len(), 6);
}

#[test]
fn unchanged_store_publishes_nothing() {
    let mut store = ProcessedMeshes::new();
    let mut meta = fresh_meta();
    let wrote = prepare_meshes(&mut store, &mut meta);
    assert!(!wrote);
    assert!(!meta.dirty.meshes);
}

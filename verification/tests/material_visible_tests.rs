use path_tracing::aabb::Vec3Bits;
use path_tracing::binary32::{le_bits, max_bits, min_bits, positive_bits, NO_INDEX};
use path_tracing::data::{
    AssetEvent, DirtyFlags, MaterialSource, RayTraceMeta, RayTraceSettings, TextureData,
    VisibleInstance,
};
use path_tracing::extract::{extract_visible, ProcessedMeshes};
use path_tracing::material::{extract_materials, prepare_materials, ProcessedMaterials};
use path_tracing::publish::{take_dirty_groups, BufferGroup};
use path_tracing::table::IdTable;

fn cv3(x: f32, y: f32, z: f32) -> Vec3Bits {
    Vec3Bits { x: x.to_bits(), y: y.to_bits(), z: z.to_bits() }
}

fn cmeta() -> RayTraceMeta {
    RayTraceMeta {
        objects: Vec::new(),
        emissives: Vec::new(),
        meshes: Vec::new(),
        indices: Vec::new(),
        vertices: Vec::new(),
        handle_to_material: IdTable::new(),
        handle_to_texture: IdTable::new(),
        materials: Vec::new(),
        textures: Vec::new(),
        texture_data: TextureData { data: Vec::new() },
        dirty: DirtyFlags {
            objects: false,
            emissives: false,
            meshes: false,
            indices: false,
            vertices: false,
            materials: false,
            textures: false,
            texture_data: false,
        },
    }
}

fn plain_material(emissive: [f32; 3]) -> MaterialSource {
    MaterialSource {
        base_color: cv3(0.8, 0.7, 0.6),
        base_color_texture: None,
        emissive: cv3(emissive[0], emissive[1], emissive[2]),
        emissive_texture: None,
        perceptual_roughness: 0.5f32.to_bits(),
        metallic: 0.0f32.to_bits(),
        metallic_roughness_texture: None,
        reflectance: 0.5f32.to_bits(),
        normal_map_texture: None,
    }
}

fn identity_matrix() -> [u32; 16] {
    let mut m = [0.0f32.to_bits(); 16];
    for k in 0..4 {
        m[5 * k] = 1.0f32.to_bits();
    }
    m
}

#[test]
fn untextured_material_binds_every_channel_to_the_sentinel() {
    // Scenario: a material with no texture references carries the
    // reserved sentinel — never slot zero — in all four index fields.
    let mut store = ProcessedMaterials::new();
    let assets = vec![(5u64, plain_material([0.0, 0.0, 0.0]))];
    let reports = extract_materials(&vec![AssetEvent::Added { id: 5 }], &assets, &mut store);
    assert!(reports.is_empty());
    let mut meta = cmeta();
    let wrote = prepare_materials(&mut store, false, &mut meta);
    assert!(wrote);
    let m = meta.materials[0];
    assert_eq!(m.albedo_texture, NO_INDEX);
    assert_eq!(m.emissive_texture, NO_INDEX);
    assert_eq!(m.metallic_roughness_texture, NO_INDEX);
    assert_eq!(m.normal_map_texture, NO_INDEX);
    assert_ne!(m.albedo_texture, 0);
    assert!(meta.dirty.materials);
}

#[test]
fn texture_references_bind_to_dense_slots() {
    let mut meta = cmeta();
    meta.handle_to_texture.push_id(40);
    meta.handle_to_texture.push_id(41);
    let mut src = plain_material([0.0, 0.0, 0.0]);
    src.base_color_texture = Some(41);
    src.normal_map_texture = Some(99); // unregistered
    let mut store = ProcessedMaterials::new();
    extract_materials(
        &vec![AssetEvent::Added { id: 6 }],
        &vec![(6u64, src)],
        &mut store,
    );
    prepare_materials(&mut store, false, &mut meta);
    let m = meta.materials[0];
    assert_eq!(m.albedo_texture, 1);
    assert_eq!(m.normal_map_texture, NO_INDEX);
}

#[test]
fn forced_rebind_follows_texture_slot_shifts() {
    let mut meta = cmeta();
    meta.handle_to_texture.push_id(40);
    meta.handle_to_texture.push_id(41);
    let mut src = plain_material([0.0, 0.0, 0.0]);
    src.base_color_texture = Some(41);
    let mut store = ProcessedMaterials::new();
    extract_materials(
        &vec![AssetEvent::Added { id: 6 }],
        &vec![(6u64, src)],
        &mut store,
    );
    prepare_materials(&mut store, false, &mut meta);
    assert_eq!(meta.materials[0].albedo_texture, 1);
    // Texture 40 goes away: slot 1 becomes slot 0; a forced rebind
    // (no material event at all) follows the shift.
    meta.handle_to_texture.remove_id(40);
    let wrote = prepare_materials(&mut store, true, &mut meta);
    assert!(wrote);
    assert_eq!(meta.materials[0].albedo_texture, 0);
}

#[test]
fn material_removal_shifts_slots_and_missing_source_is_reported() {
    let mut store = ProcessedMaterials::new();
    let assets = vec![
        (1u64, plain_material([0.0, 0.0, 0.0])),
        (2u64, plain_material([0.0, 0.0, 0.0])),
        (3u64, plain_material([0.0, 0.0, 0.0])),
    ];
    let reports = extract_materials(
        &vec![
            AssetEvent::Added { id: 1 },
            AssetEvent::Added { id: 2 },
            AssetEvent::Added { id: 3 },
            AssetEvent::Added { id: 4 },
        ],
        &assets,
        &mut store,
    );
    assert_eq!(
        reports,
        vec![(4u64, path_tracing::extract::EncodeError::MissingSource)]
    );
    assert_eq!(store.asset_to_index.len(), 3);
    extract_materials(&vec![AssetEvent::Removed { id: 2 }], &assets, &mut store);
    assert_eq!(store.asset_to_index.slot_of(3), Some(1));
    // An unchanged, unforced store publishes nothing.
    let mut meta = cmeta();
    prepare_materials(&mut store, false, &mut meta);
    assert!(meta.dirty.materials);
    let _ = take_dirty_groups(&mut meta);
    let wrote = prepare_materials(&mut store, false, &mut meta);
    assert!(!wrote);
    assert!(!meta.dirty.materials);
}

#[test]
fn visible_pass_resolves_skips_and_classifies_emissives() {
    let mut meta = cmeta();
    let mut meshes = ProcessedMeshes::new();
    meshes.asset_to_index.push_id(100);

    let mut mat_store = ProcessedMaterials::new();
    let assets = vec![
        (200u64, plain_material([0.0, 0.0, 0.0])),
        (201u64, plain_material([0.0, 2.5, 0.0])),
    ];
    extract_materials(
        &vec![AssetEvent::Added { id: 200 }, AssetEvent::Added { id: 201 }],
        &assets,
        &mut mat_store,
    );
    prepare_materials(&mut mat_store, false, &mut meta);

    let query = vec![
        // Resolves, not emissive.
        VisibleInstance {
            local_to_world: identity_matrix(),
            world_to_local: identity_matrix(),
            mesh: 100,
            material: 200,
            visible: true,
        },
        // Unregistered mesh: skipped this pass.
        VisibleInstance {
            local_to_world: identity_matrix(),
            world_to_local: identity_matrix(),
            mesh: 999,
            material: 200,
            visible: true,
        },
        // Unregistered material: skipped this pass.
        VisibleInstance {
            local_to_world: identity_matrix(),
            world_to_local: identity_matrix(),
            mesh: 100,
            material: 999,
            visible: true,
        },
        // Resolves, emissive.
        VisibleInstance {
            local_to_world: identity_matrix(),
            world_to_local: identity_matrix(),
            mesh: 100,
            material: 201,
            visible: true,
        },
    ];
    extract_visible(&query, &meshes, &mut meta);
    assert_eq!(meta.objects.len(), 2);
    assert_eq!(meta.objects[0].mesh, 0);
    assert_eq!(meta.objects[0].mat, 0);
    assert_eq!(meta.objects[1].mat, 1);
    assert_eq!(meta.objects[1].local_to_world, identity_matrix());
    // Only the second emitted object is emissive, listed by its position.
    assert_eq!(meta.emissives, vec![1u32]);
    assert!(meta.dirty.objects && meta.dirty.emissives);
    // Every emitted slot resolves against the live tables.
    for o in &meta.objects {
        assert!((o.mesh as usize) < meshes.asset_to_index.len());
        assert!((o.mat as usize) < meta.handle_to_material.len());
    }
}

#[test]
fn invisible_instance_contributes_nothing() {
    let mut meta = cmeta();
    let mut meshes = ProcessedMeshes::new();
    meshes.asset_to_index.push_id(1);
    let mut mat_store = ProcessedMaterials::new();
    extract_materials(
        &vec![AssetEvent::Added { id: 2 }],
        &vec![(2u64, plain_material([1.0, 1.0, 1.0]))],
        &mut mat_store,
    );
    prepare_materials(&mut mat_store, false, &mut meta);
    let query = vec![VisibleInstance {
        local_to_world: identity_matrix(),
        world_to_local: identity_matrix(),
        mesh: 1,
        material: 2,
        visible: false,
    }];
    extract_visible(&query, &meshes, &mut meta);
    assert!(meta.objects.is_empty());
    assert!(meta.emissives.is_empty());
}

#[test]
fn negative_or_zero_emissive_is_not_listed() {
    let mut meta = cmeta();
    let mut meshes = ProcessedMeshes::new();
    meshes.asset_to_index.push_id(1);
    let mut mat_store = ProcessedMaterials::new();
    extract_materials(
        &vec![AssetEvent::Added { id: 2 }],
        &vec![(2u64, plain_material([-3.0, 0.0, -0.0]))],
        &mut mat_store,
    );
    prepare_materials(&mut mat_store, false, &mut meta);
    let query = vec![VisibleInstance {
        local_to_world: identity_matrix(),
        world_to_local: identity_matrix(),
        mesh: 1,
        material: 2,
        visible: true,
    }];
    extract_visible(&query, &meshes, &mut meta);
    assert_eq!(meta.objects.len(), 1);
    assert!(meta.emissives.is_empty());
}

#[test]
fn dirty_groups_are_taken_once_in_order() {
    let mut meta = cmeta();
    meta.dirty.objects = true;
    meta.dirty.vertices = true;
    meta.dirty.texture_data = true;
    let groups = take_dirty_groups(&mut meta);
    assert_eq!(
        groups,
        vec![BufferGroup::Objects, BufferGroup::Vertices, BufferGroup::TextureDataPool]
    );
    // Flags clear; nothing is re-published.
    let again = take_dirty_groups(&mut meta);
    assert!(again.is_empty());
}

#[test]
fn settings_record_carries_its_fields() {
    let sky = [0.1f32.to_bits(), 0.2f32.to_bits(), 0.4f32.to_bits(), 1.0f32.to_bits()];
    let s = RayTraceSettings::new(4, 1, sky);
    assert_eq!(s.bounces, 4);
    assert_eq!(s.samples, 1);
    assert_eq!(s.sky_color, sky);
}

#[test]
fn pattern_order_matches_value_order() {
    let vals = [
        f32::NEG_INFINITY,
        -3.5,
        -0.0,
        0.0,
        1.0e-40, // subnormal
        0.25,
        1.0,
        65504.0,
        f32::INFINITY,
    ];
    for w in vals.windows(2) {
        assert!(le_bits(w[0].to_bits(), w[1].to_bits()));
        assert!(!le_bits(w[1].to_bits(), w[0].to_bits()) || w[0] == w[1]);
        assert_eq!(
            f32::from_bits(min_bits(w[0].to_bits(), w[1].to_bits())),
            w[0].min(w[1])
        );
        assert_eq!(
            f32::from_bits(max_bits(w[0].to_bits(), w[1].to_bits())),
            w[1].max(w[0])
        );
    }
    assert!(positive_bits(1.0f32.to_bits()));
    assert!(positive_bits(f32::INFINITY.to_bits()));
    assert!(positive_bits(1.0e-40f32.to_bits()));
    assert!(!positive_bits(0.0f32.to_bits()));
    assert!(!positive_bits((-0.0f32).to_bits()));
    assert!(!positive_bits((-2.0f32).to_bits()));
    assert!(!positive_bits(f32::NAN.to_bits()));
}

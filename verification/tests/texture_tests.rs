use path_tracing::data::{AssetEvent, Image, RayTraceMeta, TextureData, TextureFormat};
use path_tracing::decode::{half_to_bits, ufloat9e5_bits, unorm8_to_bits};
use path_tracing::extract::EncodeError;
use path_tracing::table::IdTable;
use path_tracing::texture::{extract_textures, prepare_textures, ProcessedTextures};

fn tmeta() -> RayTraceMeta {
    RayTraceMeta {
        objects: Vec::new(),
        emissives: Vec::new(),
        meshes: Vec::new(),
        indices: Vec::new(),
        vertices: Vec::new(),
        handle_to_material: IdTable::new(),
        handle_to_texture: IdTable::new(),
        materials: Vec::new(),
        textures: Vec::new(),
        texture_data: TextureData { data: Vec::new() },
        dirty: path_tracing::data::DirtyFlags {
            objects: false,
            emissives: false,
            meshes: false,
            indices: false,
            vertices: false,
            materials: false,
            textures: false,
            texture_data: false,
        },
    }
}

#[test]
fn unorm8_round_trips_within_precision() {
    // Round trip: decoding a normalized byte then re-quantizing recovers
    // the byte; the decoded value sits within 1/255 of the source.
    for n in 0u16..=255 {
        let n = n as u8;
        let s = unorm8_to_bits(n);
        let f = f32::from_bits(s);
        let expected = n as f32 / 255.0;
        assert!((f - expected).abs() <= 1.0 / 255.0, "byte {n}");
        assert_eq!((f * 255.0).round() as u8, n, "byte {n}");
    }
}

#[test]
fn unorm8_anchors_are_exact() {
    assert_eq!(unorm8_to_bits(0), path_tracing::binary32::ZERO_BITS);
    assert_eq!(unorm8_to_bits(255), path_tracing::binary32::ONE_BITS);
    assert_eq!(path_tracing::binary32::ZERO_BITS, 0.0f32.to_bits());
    assert_eq!(path_tracing::binary32::ONE_BITS, 1.0f32.to_bits());
    // The decoded pattern is the nearest representable value.
    assert_eq!(f32::from_bits(unorm8_to_bits(51)), 51.0f32 / 255.0);
    assert_eq!(f32::from_bits(unorm8_to_bits(128)), 128.0f32 / 255.0);
}

#[test]
fn half_decode_is_exact() {
    let cases: [(u16, f32); 7] = [
        (0x3C00, 1.0),
        (0x4000, 2.0),
        (0x3800, 0.5),
        (0xC640, -6.25),
        (0x0001, f32::from_bits(0x3380_0000)), // smallest subnormal, 2^-24
        (0x8000, -0.0),
        (0x7BFF, 65504.0), // largest finite half
    ];
    for (h, want) in cases {
        let s = half_to_bits(h);
        assert_eq!(f32::from_bits(s), want, "half {h:#06x}");
    }
    assert_eq!(f32::from_bits(half_to_bits(0x7C00)), f32::INFINITY);
    assert_eq!(f32::from_bits(half_to_bits(0xFC00)), f32::NEG_INFINITY);
    assert!(f32::from_bits(half_to_bits(0x7E00)).is_nan());
}

#[test]
fn unorm8_decode_is_monotone() {
    let mut prev = f32::from_bits(unorm8_to_bits(0));
    for n in 1u16..=255 {
        let cur = f32::from_bits(unorm8_to_bits(n as u8));
        assert!(prev < cur);
        prev = cur;
    }
}

#[test]
fn half_subnormal_edges_are_exact() {
    // Largest subnormal: 1023 * 2^-24; smallest normal: 2^-14.
    assert_eq!(f32::from_bits(half_to_bits(0x03FF)), 1023.0 * (0.5f32).powi(24));
    assert_eq!(f32::from_bits(half_to_bits(0x0400)), (0.5f32).powi(14));
    // Negative subnormal keeps its sign.
    assert_eq!(f32::from_bits(half_to_bits(0x8001)), -(0.5f32.powi(24)));
}

#[test]
fn shared_exponent_decode_is_exact() {
    // A mantissa of 256 under exponent 16 weighs 256 * 2^(16-24) = 1.0.
    assert_eq!(f32::from_bits(ufloat9e5_bits(256, 16)), 1.0);
    // 384 * 2^(18-24) = 6.0.
    assert_eq!(f32::from_bits(ufloat9e5_bits(384, 18)), 6.0);
    // The smallest positive value: 1 * 2^-24.
    assert_eq!(f32::from_bits(ufloat9e5_bits(1, 0)), f32::from_bits(0x3380_0000));
    assert_eq!(f32::from_bits(ufloat9e5_bits(0, 13)), 0.0);
}

#[test]
fn append_rgba8_texture_decodes_each_byte() {
    let mut pool = TextureData::new();
    let img = Image {
        width: 1,
        height: 1,
        format: TextureFormat::Rgba8UnormSrgb,
        data: vec![0, 51, 128, 255],
    };
    let tex = pool.append_texture(&img).unwrap();
    assert_eq!(tex.offset, 0);
    assert_eq!(tex.format, 4);
    assert_eq!(tex.width, 1);
    assert_eq!(tex.height, 1);
    assert_eq!(pool.data.len(), 4);
    let want = [0.0f32, 51.0 / 255.0, 128.0 / 255.0, 1.0];
    for (i, w) in want.iter().enumerate() {
        let got = f32::from_bits(pool.data[i]);
        assert!((got - w).abs() <= 1.0 / 255.0);
    }
}

#[test]
fn append_half_texture_decodes_each_pair() {
    let mut pool = TextureData::new();
    // One texel of four half channels: 1.0, 0.5, 2.0, -6.25.
    let halves: [u16; 4] = [0x3C00, 0x3800, 0x4000, 0xC640];
    let mut data: Vec<u8> = Vec::new();
    for h in halves {
        data.push((h & 0xFF) as u8);
        data.push((h >> 8) as u8);
    }
    let img = Image { width: 1, height: 1, format: TextureFormat::Rgba16Float, data };
    let tex = pool.append_texture(&img).unwrap();
    assert_eq!(tex.format, 4);
    assert_eq!(pool.data.len(), 4);
    let want = [1.0f32, 0.5, 2.0, -6.25];
    for (i, w) in want.iter().enumerate() {
        assert_eq!(f32::from_bits(pool.data[i]), *w);
    }
}

#[test]
fn append_shared_exponent_texture_decodes_three_channels() {
    let mut pool = TextureData::new();
    // Pack r=256, g=128, b=511 under exponent 16:
    // values 1.0, 0.5, 511/512 * 2.
    let v: u32 = 256 | (128 << 9) | (511 << 18) | (16 << 27);
    let data = v.to_le_bytes().to_vec();
    let img = Image { width: 1, height: 1, format: TextureFormat::Rgb9e5Ufloat, data };
    let tex = pool.append_texture(&img).unwrap();
    assert_eq!(tex.format, 3);
    assert_eq!(pool.data.len(), 3);
    assert_eq!(f32::from_bits(pool.data[0]), 1.0);
    assert_eq!(f32::from_bits(pool.data[1]), 0.5);
    assert_eq!(f32::from_bits(pool.data[2]), 511.0 / 512.0 * 2.0);
}

#[test]
fn append_single_and_dual_channel_textures() {
    let mut pool = TextureData::new();
    let r = Image { width: 2, height: 1, format: TextureFormat::R8Unorm, data: vec![255, 0] };
    let rg = Image {
        width: 1,
        height: 1,
        format: TextureFormat::Rg8Unorm,
        data: vec![255, 255],
    };
    let t1 = pool.append_texture(&r).unwrap();
    let t2 = pool.append_texture(&rg).unwrap();
    assert_eq!(t1.format, 1);
    assert_eq!(t1.offset, 0);
    assert_eq!(t2.format, 2);
    // The second texture's samples begin where the first one's ended.
    assert_eq!(t2.offset, 2);
    assert_eq!(pool.data.len(), 4);
    assert_eq!(f32::from_bits(pool.data[2]), 1.0);
}

#[test]
fn unrecognized_encoding_is_a_hard_error() {
    let mut pool = TextureData::new();
    let img = Image {
        width: 1,
        height: 1,
        format: TextureFormat::Unrecognized,
        data: vec![1, 2, 3, 4],
    };
    assert_eq!(pool.append_texture(&img), Err(EncodeError::UnsupportedFormat));
    assert!(pool.data.is_empty());
}

#[test]
fn mismatched_payload_is_a_hard_error() {
    let mut pool = TextureData::new();
    let img = Image {
        width: 2,
        height: 2,
        format: TextureFormat::Rgba8UnormSrgb,
        data: vec![0; 15],
    };
    assert_eq!(pool.append_texture(&img), Err(EncodeError::SizeMismatch));
    assert!(pool.data.is_empty());
}

#[test]
fn texture_events_stage_validate_and_flatten() {
    let mut store = ProcessedTextures::new();
    let good = Image {
        width: 1,
        height: 1,
        format: TextureFormat::R8Unorm,
        data: vec![255],
    };
    let bad = Image {
        width: 1,
        height: 1,
        format: TextureFormat::Unrecognized,
        data: vec![0],
    };
    let assets = vec![(1u64, good.clone()), (2u64, bad)];
    let reports = extract_textures(
        &vec![AssetEvent::Added { id: 1 }, AssetEvent::Added { id: 2 }],
        &assets,
        &mut store,
    );
    assert_eq!(reports, vec![(2u64, EncodeError::UnsupportedFormat)]);
    assert_eq!(store.images.len(), 1);

    let mut meta = tmeta();
    let wrote = prepare_textures(&mut store, &mut meta);
    assert!(wrote);
    assert_eq!(meta.textures.len(), 1);
    assert_eq!(meta.textures[0].offset, 0);
    assert_eq!(meta.texture_data.data.len(), 1);
    assert_eq!(f32::from_bits(meta.texture_data.data[0]), 1.0);
    assert_eq!(meta.handle_to_texture.slot_of(1), Some(0));
    assert!(meta.dirty.textures && meta.dirty.texture_data);
}

#[test]
fn texture_removal_shifts_slots_and_reflattens() {
    let mut store = ProcessedTextures::new();
    let one = Image { width: 1, height: 1, format: TextureFormat::R8Unorm, data: vec![0] };
    let two = Image { width: 1, height: 1, format: TextureFormat::Rg8Unorm, data: vec![1, 2] };
    let assets = vec![(1u64, one), (2u64, two)];
    extract_textures(
        &vec![AssetEvent::Added { id: 1 }, AssetEvent::Added { id: 2 }],
        &assets,
        &mut store,
    );
    let mut meta = tmeta();
    prepare_textures(&mut store, &mut meta);
    assert_eq!(meta.textures[1].offset, 1);

    extract_textures(&vec![AssetEvent::Unused { id: 1 }], &assets, &mut store);
    assert!(store.changed);
    prepare_textures(&mut store, &mut meta);
    assert_eq!(meta.textures.len(), 1);
    assert_eq!(meta.textures[0].offset, 0);
    assert_eq!(meta.texture_data.data.len(), 2);
    assert_eq!(meta.handle_to_texture.slot_of(2), Some(0));
}

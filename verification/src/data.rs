//! Record types of the pipeline: the flattened GPU-side layouts, the
//! CPU-side staging forms, and the plain-value source descriptions that the
//! host shell hands in.
//!
//! Scalars that the renderer treats as real numbers (positions, colors,
//! transforms, material parameters, decoded texels) are binary32 bit
//! patterns (`u32`); see [`crate::binary32`].

use vstd::prelude::*;

use crate::aabb::{Vec2Bits, Vec3Bits};
use crate::table::IdTable;

verus! {

/// Trace settings record, written on a settings edit.
#[derive(Clone, Copy, PartialEq, Eq, Debug)]
pub struct RayTraceSettings {
    /// Bounce count.
    pub bounces: u32,
    /// Sample count per pixel.
    pub samples: u32,
    /// Sky color, four binary32 patterns (red, green, blue, alpha).
    pub sky_color: [u32; 4],
}

impl RayTraceSettings {
    /// A settings record from its three fields.
    pub fn new(bounces: u32, samples: u32, sky_color: [u32; 4]) -> (s: RayTraceSettings)
        ensures
            s.bounces == bounces,
            s.samples == samples,
            s.sky_color == sky_color,
    {
        RayTraceSettings { bounces, samples, sky_color }
    }
}

/// One visible instance, rebuilt every pass: transforms plus resolved
/// material and mesh slots.
#[derive(Clone, Copy, PartialEq, Eq, Debug)]
pub struct Object {
    /// Column-major 4x4 local-to-world transform, binary32 patterns.
    pub local_to_world: [u32; 16],
    /// Column-major 4x4 world-to-local transform, binary32 patterns.
    pub world_to_local: [u32; 16],
    /// Material slot.
    pub mat: u32,
    /// Mesh slot.
    pub mesh: u32,
}

/// One bound material: colors, per-channel texture slots (or
/// [`crate::binary32::NO_INDEX`]), and scalar parameters.
#[derive(Clone, Copy, PartialEq, Eq, Structural, Debug)]
pub struct Material {
    pub albedo: Vec3Bits,
    pub albedo_texture: u32,
    pub emissive: Vec3Bits,
    pub emissive_texture: u32,
    pub roughness: u32,
    pub metallic: u32,
    pub metallic_roughness_texture: u32,
    pub reflectance: u32,
    pub normal_map_texture: u32,
}

/// One normalized texture: its size, its offset into the shared sample
/// pool, and its channel count.
#[derive(Clone, Copy, PartialEq, Eq, Structural, Debug)]
pub struct Texture {
    pub width: u32,
    pub height: u32,
    /// Offset of the first sample within the shared pool.
    pub offset: u32,
    /// Channel count of one texel (1 to 4).
    pub format: u32,
}

/// The shared sample pool all textures are normalized into: one binary32
/// pattern per channel per texel.
#[derive(Clone, PartialEq, Eq, Debug)]
pub struct TextureData {
    pub data: Vec<u32>,
}

/// One mesh's region within the shared index and vertex pools, plus its
/// object-space bound.
#[derive(Clone, Copy, PartialEq, Eq, Structural, Debug)]
pub struct GpuMesh {
    pub aabb_min: Vec3Bits,
    pub aabb_max: Vec3Bits,
    /// First slot of this mesh's triangle indices within the index pool.
    pub ihead: u32,
    /// First slot of this mesh's vertices within the vertex pool.
    pub vhead: u32,
    /// Triangle count.
    pub tri_count: u32,
}

/// One fixed-layout vertex record.
#[derive(Clone, Copy, PartialEq, Eq, Structural, Debug)]
pub struct GpuVertex {
    pub position: Vec3Bits,
    pub normal: Vec3Bits,
    pub uv: Vec2Bits,
}

/// One mesh's encoded attributes, staged CPU-side until the pools are
/// re-flattened.
#[derive(Clone, PartialEq, Eq, Debug)]
pub struct CpuMesh {
    pub aabb_min: Vec3Bits,
    pub aabb_max: Vec3Bits,
    /// Triangle index list, promoted to 32 bits, local to this mesh's
    /// vertices.
    pub indices: Vec<u32>,
    pub vertices: Vec<GpuVertex>,
}

/// The shared index and vertex pools of all meshes.
#[derive(Clone, PartialEq, Eq, Debug)]
pub struct MeshData {
    pub indices: Vec<u32>,
    pub vertices: Vec<GpuVertex>,
}

/// Mathematical image of a [`CpuMesh`]: the same record over sequences.
pub ghost struct CpuMeshView {
    pub aabb_min: Vec3Bits,
    pub aabb_max: Vec3Bits,
    pub indices: Seq<u32>,
    pub vertices: Seq<GpuVertex>,
}

impl View for CpuMesh {
    type V = CpuMeshView;

    open spec fn view(&self) -> CpuMeshView {
        CpuMeshView {
            aabb_min: self.aabb_min,
            aabb_max: self.aabb_max,
            indices: self.indices@,
            vertices: self.vertices@,
        }
    }
}

/// Mathematical image of an [`Image`]: the same record over a byte
/// sequence.
pub ghost struct ImageView {
    pub width: u32,
    pub height: u32,
    pub format: TextureFormat,
    pub data: Seq<u8>,
}

impl View for Image {
    type V = ImageView;

    open spec fn view(&self) -> ImageView {
        ImageView {
            width: self.width,
            height: self.height,
            format: self.format,
            data: self.data@,
        }
    }
}

/// One node of a flattened bounding volume hierarchy, laid out for
/// stackless traversal. Leaves carry a triangle slot in `shape_index` and
/// the sentinel in `entry_index`; internal nodes carry the sentinel in
/// `shape_index` and their first child (their own position plus one) in
/// `entry_index`. `exit_index` is the node visited on a miss: the position
/// right after this node's subtree (the next sibling, or an ancestor's next
/// sibling at the far edge, or the array length at the very end).
#[derive(Clone, Copy, PartialEq, Eq, Structural, Debug)]
pub struct BvhNode {
    pub aabb_min: Vec3Bits,
    pub aabb_max: Vec3Bits,
    pub entry_index: u32,
    pub exit_index: u32,
    pub shape_index: u32,
}

/// Mesh attribute arrays as handed in by the host shell. Layouts other
/// than the two supported ones are carried opaquely so that the encoder can
/// reject them.
#[derive(Clone, PartialEq, Eq, Debug)]
pub enum VertexAttributeValues {
    Float32x3(Vec<Vec3Bits>),
    Float32x2(Vec<Vec2Bits>),
    /// Any other numeric layout: present but unusable.
    Unsupported,
}

/// A triangle index list of either source width.
#[derive(Clone, PartialEq, Eq, Debug)]
pub enum Indices {
    U16(Vec<u16>),
    U32(Vec<u32>),
}

/// One mesh source: optional attribute arrays and an optional index list.
#[derive(Clone, PartialEq, Eq, Debug)]
pub struct MeshSource {
    pub positions: Option<VertexAttributeValues>,
    pub normals: Option<VertexAttributeValues>,
    pub uvs: Option<VertexAttributeValues>,
    pub indices: Option<Indices>,
}

/// Source pixel encodings. The fixed set the normalizer understands, plus
/// a marker for any encoding outside it, which is always rejected.
#[derive(Clone, Copy, PartialEq, Eq, Structural, Debug)]
pub enum TextureFormat {
    /// Four channels, one byte each, normalized to [0, 1].
    Rgba8UnormSrgb,
    /// Four channels, one half-precision value each.
    Rgba16Float,
    /// Three channels packed with a shared 5-bit exponent in 32 bits.
    Rgb9e5Ufloat,
    /// One channel, one byte, normalized to [0, 1].
    R8Unorm,
    /// Two channels, one byte each, normalized to [0, 1].
    Rg8Unorm,
    /// Any encoding outside the set above.
    Unrecognized,
}

/// One texture source: size, encoding, raw bytes.
#[derive(Clone, PartialEq, Eq, Debug)]
pub struct Image {
    pub width: u32,
    pub height: u32,
    pub format: TextureFormat,
    pub data: Vec<u8>,
}

/// One material source: colors, optional per-channel texture identities,
/// scalar parameters.
#[derive(Clone, Copy, PartialEq, Eq, Structural, Debug)]
pub struct MaterialSource {
    pub base_color: Vec3Bits,
    pub base_color_texture: Option<u64>,
    pub emissive: Vec3Bits,
    pub emissive_texture: Option<u64>,
    pub perceptual_roughness: u32,
    pub metallic: u32,
    pub metallic_roughness_texture: Option<u64>,
    pub reflectance: u32,
    pub normal_map_texture: Option<u64>,
}

/// One instance of the per-frame source, as handed in by the host shell:
/// both transforms (the shell owns the matrix arithmetic), the identities
/// of the mesh and material it references, and its visibility flag.
#[derive(Clone, Copy, PartialEq, Eq, Debug)]
pub struct VisibleInstance {
    pub local_to_world: [u32; 16],
    pub world_to_local: [u32; 16],
    pub mesh: u64,
    pub material: u64,
    pub visible: bool,
}

/// One asset lifecycle event of a resource kind. The identity is opaque
/// and stable.
#[derive(Clone, Copy, PartialEq, Eq, Structural, Debug)]
pub enum AssetEvent {
    Added { id: u64 },
    Modified { id: u64 },
    Removed { id: u64 },
    Unused { id: u64 },
    LoadedWithDependencies { id: u64 },
}

/// Per-group dirty flags: a group is uploaded only while its flag is set,
/// and publishing clears it.
#[derive(Clone, Copy, PartialEq, Eq, Structural, Debug)]
pub struct DirtyFlags {
    pub objects: bool,
    pub emissives: bool,
    pub meshes: bool,
    pub indices: bool,
    pub vertices: bool,
    pub materials: bool,
    pub textures: bool,
    pub texture_data: bool,
}

/// The CPU-side mirror of every GPU-resident array, with the identity
/// tables of the material and texture kinds and the per-group dirty flags.
/// The host shell uploads a group when its flag is set and clears the flag
/// through [`crate::publish::take_dirty_groups`].
pub struct RayTraceMeta {
    pub objects: Vec<Object>,
    pub emissives: Vec<u32>,

    pub meshes: Vec<GpuMesh>,
    pub indices: Vec<u32>,
    pub vertices: Vec<GpuVertex>,

    pub handle_to_material: IdTable,
    pub handle_to_texture: IdTable,
    pub materials: Vec<Material>,
    pub textures: Vec<Texture>,
    pub texture_data: TextureData,

    pub dirty: DirtyFlags,
}

} // verus!

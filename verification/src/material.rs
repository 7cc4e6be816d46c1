//! Material binding: each material source's optional per-channel texture
//! references resolve against the texture identity table to dense slots,
//! with the reserved sentinel — never slot zero — standing for an absent
//! or unresolved reference.

use vstd::prelude::*;

use crate::binary32::NO_INDEX;
use crate::data::{AssetEvent, Material, MaterialSource};
use crate::extract::{removal_ids, slot_in, upsert_ids, EncodeError};
use crate::table::IdTable;

verus! {

/// The slot an optional texture reference binds to: the identity's dense
/// slot when registered, the sentinel when absent or unregistered.
pub open spec fn spec_resolve_texture(tex_ids: Seq<u64>, r: Option<u64>) -> u32 {
    match r {
        None => NO_INDEX,
        Some(id) => if tex_ids.contains(id) {
            slot_in(tex_ids, id) as u32
        } else {
            NO_INDEX
        },
    }
}

/// One bound material: colors and scalars carried over, every texture
/// reference resolved per [`spec_resolve_texture`].
pub open spec fn spec_bind_material(src: MaterialSource, tex_ids: Seq<u64>) -> Material {
    Material {
        albedo: src.base_color,
        albedo_texture: spec_resolve_texture(tex_ids, src.base_color_texture),
        emissive: src.emissive,
        emissive_texture: spec_resolve_texture(tex_ids, src.emissive_texture),
        roughness: src.perceptual_roughness,
        metallic: src.metallic,
        metallic_roughness_texture: spec_resolve_texture(
            tex_ids,
            src.metallic_roughness_texture,
        ),
        reflectance: src.reflectance,
        normal_map_texture: spec_resolve_texture(tex_ids, src.normal_map_texture),
    }
}

/// Resolves one optional texture reference against the texture table.
fn resolve_texture(table: &IdTable, r: Option<u64>) -> (slot: u32)
    requires
        table.wf(),
        table@.len() < 0xFFFF_FFFF,
    ensures
        slot == spec_resolve_texture(table@, r),
{
    match r {
        None => NO_INDEX,
        Some(id) => {
            match table.slot_of(id) {
                Some(k) => {
                    proof {
                        assert(table@.contains(id)) by {
                            assert(table@[k as int] == id);
                        }
                        let kk = slot_in(table@, id);
                        assert(table@[kk] == id);
                        assert(kk == k);
                    }
                    k as u32
                },
                None => NO_INDEX,
            }
        },
    }
}

/// Binds one material source against the texture table.
pub fn bind_material(src: &MaterialSource, table: &IdTable) -> (m: Material)
    requires
        table.wf(),
        table@.len() < 0xFFFF_FFFF,
    ensures
        m == spec_bind_material(*src, table@),
{
    Material {
        albedo: src.base_color,
        albedo_texture: resolve_texture(table, src.base_color_texture),
        emissive: src.emissive,
        emissive_texture: resolve_texture(table, src.emissive_texture),
        roughness: src.perceptual_roughness,
        metallic: src.metallic,
        metallic_roughness_texture: resolve_texture(table, src.metallic_roughness_texture),
        reflectance: src.reflectance,
        normal_map_texture: resolve_texture(table, src.normal_map_texture),
    }
}

/// The staged materials: sources, the identity table giving each asset its
/// dense slot, and the flag that tells the binding pass whether anything
/// happened since it last ran.
pub struct ProcessedMaterials {
    pub materials: Vec<MaterialSource>,
    pub asset_to_index: IdTable,
    pub changed: bool,
}

/// Mathematical image of the staged materials.
pub ghost struct MatStoreView {
    pub ids: Seq<u64>,
    pub sources: Seq<MaterialSource>,
    pub changed: bool,
}

impl View for ProcessedMaterials {
    type V = MatStoreView;

    open spec fn view(&self) -> MatStoreView {
        MatStoreView {
            ids: self.asset_to_index@,
            sources: self.materials@,
            changed: self.changed,
        }
    }
}

impl MatStoreView {
    /// One slot per identity, one source per slot.
    pub open spec fn wf(self) -> bool {
        &&& crate::table::distinct_ids(self.ids)
        &&& self.ids.len() == self.sources.len()
    }
}

/// Erasing one material asset.
pub open spec fn mat_remove(s: MatStoreView, id: u64) -> MatStoreView {
    if s.ids.contains(id) {
        let k = slot_in(s.ids, id);
        MatStoreView { ids: s.ids.remove(k), sources: s.sources.remove(k), changed: s.changed }
    } else {
        s
    }
}

/// Upserting one material asset at its stable slot.
pub open spec fn mat_upsert(s: MatStoreView, id: u64, src: MaterialSource) -> MatStoreView {
    if s.ids.contains(id) {
        MatStoreView {
            ids: s.ids,
            sources: s.sources.update(slot_in(s.ids, id), src),
            changed: s.changed,
        }
    } else {
        MatStoreView { ids: s.ids.push(id), sources: s.sources.push(src), changed: s.changed }
    }
}

/// The source registered under an identity, by first match.
pub open spec fn mat_asset_source(
    assets: Seq<(u64, MaterialSource)>,
    id: u64,
) -> Option<MaterialSource>
    decreases assets.len(),
{
    if assets.len() == 0 {
        None
    } else if assets[0].0 == id {
        Some(assets[0].1)
    } else {
        mat_asset_source(assets.drop_first(), id)
    }
}

/// All erasures of one material pass, left to right.
pub open spec fn mat_remove_pass(s: MatStoreView, ids: Seq<u64>) -> MatStoreView
    decreases ids.len(),
{
    if ids.len() == 0 {
        s
    } else {
        mat_remove(mat_remove_pass(s, ids.drop_last()), ids.last())
    }
}

/// One upsert of a material pass: a missing source leaves the store as it
/// was.
pub open spec fn mat_upsert_step(
    s: MatStoreView,
    assets: Seq<(u64, MaterialSource)>,
    id: u64,
) -> MatStoreView {
    match mat_asset_source(assets, id) {
        None => s,
        Some(src) => mat_upsert(s, id, src),
    }
}

/// All upserts of one material pass, left to right.
pub open spec fn mat_upsert_pass(
    s: MatStoreView,
    assets: Seq<(u64, MaterialSource)>,
    ids: Seq<u64>,
) -> MatStoreView
    decreases ids.len(),
{
    if ids.len() == 0 {
        s
    } else {
        mat_upsert_step(mat_upsert_pass(s, assets, ids.drop_last()), assets, ids.last())
    }
}

/// What one material upsert reports: only a missing source.
pub open spec fn mat_upsert_report(
    assets: Seq<(u64, MaterialSource)>,
    id: u64,
) -> Seq<(u64, EncodeError)> {
    match mat_asset_source(assets, id) {
        None => seq![(id, EncodeError::MissingSource)],
        Some(_) => Seq::empty(),
    }
}

/// Everything one material pass reports, in upsert order.
pub open spec fn mat_upsert_reports(
    assets: Seq<(u64, MaterialSource)>,
    ids: Seq<u64>,
) -> Seq<(u64, EncodeError)>
    decreases ids.len(),
{
    if ids.len() == 0 {
        Seq::empty()
    } else {
        mat_upsert_reports(assets, ids.drop_last()) + mat_upsert_report(assets, ids.last())
    }
}

impl ProcessedMaterials {
    /// An empty store.
    pub fn new() -> (s: ProcessedMaterials)
        ensures
            s@.ids =~= Seq::<u64>::empty(),
            s@.sources =~= Seq::<MaterialSource>::empty(),
            !s@.changed,
            s@.wf(),
    {
        ProcessedMaterials {
            materials: Vec::new(),
            asset_to_index: IdTable::new(),
            changed: false,
        }
    }

    /// Erases one asset's slot, if registered.
    fn remove_material(&mut self, id: u64)
        requires
            old(self)@.wf(),
        ensures
            final(self)@ == mat_remove(old(self)@, id),
            final(self)@.wf(),
    {
        let r = self.asset_to_index.remove_id(id);
        match r {
            Some(k) => {
                self.materials.remove(k);
                proof {
                    let oldv = old(self)@;
                    assert(oldv.ids.contains(id)) by {
                        assert(oldv.ids[k as int] == id);
                    }
                    let kk = slot_in(oldv.ids, id);
                    assert(oldv.ids[kk] == id);
                    assert(kk == k);
                }
            },
            None => {
                proof {
                    assert(final(self)@ == mat_remove(old(self)@, id));
                }
            },
        }
    }

    /// Replaces or appends one asset's source at its stable slot.
    fn upsert_material(&mut self, id: u64, src: MaterialSource)
        requires
            old(self)@.wf(),
        ensures
            final(self)@ == mat_upsert(old(self)@, id, src),
            final(self)@.wf(),
    {
        let r = self.asset_to_index.slot_of(id);
        match r {
            Some(k) => {
                self.materials[k] = src;
                proof {
                    let oldv = old(self)@;
                    assert(oldv.ids.contains(id)) by {
                        assert(oldv.ids[k as int] == id);
                    }
                    let kk = slot_in(oldv.ids, id);
                    assert(oldv.ids[kk] == id);
                    assert(kk == k);
                }
            },
            None => {
                self.asset_to_index.push_id(id);
                self.materials.push(src);
            },
        }
    }
}

/// The source registered under an identity, by first match.
fn find_material_source(assets: &Vec<(u64, MaterialSource)>, id: u64) -> (r: Option<
    MaterialSource,
>)
    ensures
        r == mat_asset_source(assets@, id),
{
    let mut i: usize = 0;
    proof {
        assert(assets@.skip(0) =~= assets@);
    }
    while i < assets.len()
        invariant
            i <= assets@.len(),
            mat_asset_source(assets@, id) == mat_asset_source(assets@.skip(i as int), id),
        decreases assets@.len() - i,
    {
        proof {
            assert(assets@.skip(i as int).drop_first() =~= assets@.skip(i + 1 as int));
            assert(assets@.skip(i as int)[0] == assets@[i as int]);
        }
        if assets[i].0 == id {
            return Some(assets[i].1);
        }
        i = i + 1;
    }
    proof {
        assert(assets@.skip(assets@.len() as int).len() == 0);
    }
    None
}

/// One diff pass of the material kind, mirroring the mesh pass: erasures
/// compact the table, upserts stage the source at a stable slot, and an
/// asset whose source is missing is reported and skipped.
pub fn extract_materials(
    events: &Vec<AssetEvent>,
    assets: &Vec<(u64, MaterialSource)>,
    processed_materials: &mut ProcessedMaterials,
) -> (reports: Vec<(u64, EncodeError)>)
    requires
        old(processed_materials)@.wf(),
    ensures
        final(processed_materials)@.wf(),
        final(processed_materials)@ == ({
            let s1 = MatStoreView {
                ids: old(processed_materials)@.ids,
                sources: old(processed_materials)@.sources,
                changed: old(processed_materials)@.changed || events@.len() > 0,
            };
            mat_upsert_pass(
                mat_remove_pass(s1, removal_ids(events@)),
                assets@,
                upsert_ids(events@),
            )
        }),
        reports@ == mat_upsert_reports(assets@, upsert_ids(events@)),
{
    let mut remove: Vec<u64> = Vec::new();
    let mut extract: Vec<u64> = Vec::new();

    let mut i: usize = 0;
    while i < events.len()
        invariant
            i <= events@.len(),
            remove@ == removal_ids(events@.take(i as int)),
            extract@ == upsert_ids(events@.take(i as int)),
            processed_materials@ == (MatStoreView {
                ids: old(processed_materials)@.ids,
                sources: old(processed_materials)@.sources,
                changed: old(processed_materials)@.changed || i > 0,
            }),
        decreases events@.len() - i,
    {
        proof {
            assert(events@.take(i + 1 as int).drop_last() =~= events@.take(i as int));
            assert(events@.take(i + 1 as int).last() == events@[i as int]);
        }
        match events[i] {
            AssetEvent::Added { id } => extract.push(id),
            AssetEvent::Modified { id } => extract.push(id),
            AssetEvent::LoadedWithDependencies { id } => extract.push(id),
            AssetEvent::Removed { id } => remove.push(id),
            AssetEvent::Unused { id } => remove.push(id),
        }
        processed_materials.changed = true;
        proof {
            assert(remove@ =~= removal_ids(events@.take(i + 1 as int)));
            assert(extract@ =~= upsert_ids(events@.take(i + 1 as int)));
        }
        i = i + 1;
    }
    proof {
        assert(events@.take(events@.len() as int) =~= events@);
    }

    let ghost s1 = processed_materials@;
    let mut j: usize = 0;
    while j < remove.len()
        invariant
            j <= remove@.len(),
            processed_materials@ == mat_remove_pass(s1, remove@.take(j as int)),
            processed_materials@.wf(),
        decreases remove@.len() - j,
    {
        proof {
            assert(remove@.take(j + 1 as int).drop_last() =~= remove@.take(j as int));
            assert(remove@.take(j + 1 as int).last() == remove@[j as int]);
        }
        let id = remove[j];
        processed_materials.remove_material(id);
        j = j + 1;
    }
    proof {
        assert(remove@.take(remove@.len() as int) =~= remove@);
    }

    let ghost s2 = processed_materials@;
    let mut reports: Vec<(u64, EncodeError)> = Vec::new();
    let mut j: usize = 0;
    while j < extract.len()
        invariant
            j <= extract@.len(),
            processed_materials@ == mat_upsert_pass(s2, assets@, extract@.take(j as int)),
            processed_materials@.wf(),
            reports@ == mat_upsert_reports(assets@, extract@.take(j as int)),
        decreases extract@.len() - j,
    {
        proof {
            assert(extract@.take(j + 1 as int).drop_last() =~= extract@.take(j as int));
            assert(extract@.take(j + 1 as int).last() == extract@[j as int]);
        }
        let id = extract[j];
        match find_material_source(assets, id) {
            None => {
                reports.push((id, EncodeError::MissingSource));
                proof {
                    assert(reports@ =~= mat_upsert_reports(assets@, extract@.take(j + 1 as int)));
                }
            },
            Some(src) => {
                processed_materials.upsert_material(id, src);
                proof {
                    assert(reports@ =~= mat_upsert_reports(assets@, extract@.take(j + 1 as int)));
                }
            },
        }
        j = j + 1;
    }
    proof {
        assert(extract@.take(extract@.len() as int) =~= extract@);
    }
    reports
}

/// Re-binds every staged material against the current texture table when
/// anything changed since the last pass — or when `rebind` forces it,
/// which a texture pass that moved slots does — and reports whether it
/// ran. The published identity table becomes a copy of the store's table;
/// material `i` is the binding of source `i`; the pass marks the group
/// dirty and clears the store's changed flag.
pub fn prepare_materials(
    processed_materials: &mut ProcessedMaterials,
    rebind: bool,
    raytrace_meta: &mut crate::data::RayTraceMeta,
) -> (wrote: bool)
    requires
        old(processed_materials)@.wf(),
        old(raytrace_meta).handle_to_texture.wf(),
        old(raytrace_meta).handle_to_texture@.len() < 0xFFFF_FFFF,
    ensures
        final(processed_materials)@.ids == old(processed_materials)@.ids,
        final(processed_materials)@.sources == old(processed_materials)@.sources,
        final(processed_materials)@.wf(),
        !final(processed_materials)@.changed,
        wrote == (old(processed_materials)@.changed || rebind),
        !(old(processed_materials)@.changed || rebind) ==> *final(raytrace_meta) == *old(
            raytrace_meta,
        ) && final(processed_materials)@ == old(processed_materials)@,
        (old(processed_materials)@.changed || rebind) ==> ({
            let srcs = old(processed_materials)@.sources;
            let meta = *final(raytrace_meta);
            &&& meta.handle_to_material@ == old(processed_materials)@.ids
            &&& meta.materials@.len() == srcs.len()
            &&& forall|i: int|
                0 <= i < srcs.len() ==> meta.materials@[i] == spec_bind_material(
                    srcs[i],
                    old(raytrace_meta).handle_to_texture@,
                )
            &&& meta.dirty == (crate::data::DirtyFlags {
                materials: true,
                ..old(raytrace_meta).dirty
            })
            &&& meta.objects@ == old(raytrace_meta).objects@
            &&& meta.emissives@ == old(raytrace_meta).emissives@
            &&& meta.meshes@ == old(raytrace_meta).meshes@
            &&& meta.indices@ == old(raytrace_meta).indices@
            &&& meta.vertices@ == old(raytrace_meta).vertices@
            &&& meta.handle_to_texture@ == old(raytrace_meta).handle_to_texture@
            &&& meta.textures@ == old(raytrace_meta).textures@
            &&& meta.texture_data.data@ == old(raytrace_meta).texture_data.data@
        }),
{
    if !(processed_materials.changed || rebind) {
        return false;
    }
    processed_materials.changed = false;

    let ghost srcs = old(processed_materials)@.sources;
    let n = processed_materials.materials.len();
    let mut materials: Vec<Material> = Vec::new();

    let mut i: usize = 0;
    while i < n
        invariant
            processed_materials@.sources == srcs,
            n == srcs.len(),
            raytrace_meta.handle_to_texture.wf(),
            raytrace_meta.handle_to_texture@.len() < 0xFFFF_FFFF,
            raytrace_meta.handle_to_texture@ == old(raytrace_meta).handle_to_texture@,
            *raytrace_meta == *old(raytrace_meta),
            i <= n,
            materials@.len() == i,
            forall|j: int|
                0 <= j < i ==> materials@[j] == spec_bind_material(
                    srcs[j],
                    old(raytrace_meta).handle_to_texture@,
                ),
        decreases n - i,
    {
        let m = bind_material(&processed_materials.materials[i], &raytrace_meta.handle_to_texture);
        materials.push(m);
        i = i + 1;
    }

    raytrace_meta.handle_to_material = processed_materials.asset_to_index.copied();
    raytrace_meta.materials = materials;
    raytrace_meta.dirty.materials = true;
    true
}

} // verus!

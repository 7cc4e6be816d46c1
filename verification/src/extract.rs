//! Incremental extraction: per-kind stores, the vertex/index encoder, pool
//! flattening, material binding, the per-pass visible-object collector, and
//! the publisher's dirty-flag bookkeeping.
//!
//! Each resource kind keeps a store of staged sources with a dense identity
//! table and a changed flag. An asset event stream drives the store:
//! `Added`, `Modified` and `LoadedWithDependencies` (re)encode and upsert at
//! a stable slot, appending when new; `Removed` and `Unused` erase the slot
//! and shift every larger slot down, which invalidates raw offsets and
//! forces a full re-flatten of the pools. An asset whose source is missing
//! or rejected is reported and skipped; the pass itself never fails.

use vstd::prelude::*;

use crate::aabb::{fold_points, Aabb, Vec2Bits, Vec3Bits};
use crate::data::{AssetEvent, CpuMesh, CpuMeshView, GpuVertex, Indices, MeshSource,
    VertexAttributeValues};
use crate::table::IdTable;

verus! {

/// The attribute slot an encoder complaint points at.
#[derive(Clone, Copy, PartialEq, Eq, Structural, Debug)]
pub enum VertexSlot {
    Position,
    Normal,
    Uv,
}

/// Why one asset was skipped. Fatal to that asset only: the pass reports
/// it and continues.
#[derive(Clone, Copy, PartialEq, Eq, Structural, Debug)]
pub enum EncodeError {
    /// A required vertex attribute is absent.
    MissingAttribute(VertexSlot),
    /// A required vertex attribute uses an unsupported numeric layout.
    UnsupportedAttribute(VertexSlot),
    /// The mesh carries no triangle index list.
    MissingIndices,
    /// The texture's pixel encoding is outside the supported set.
    UnsupportedFormat,
    /// The texture's byte length does not match its size and encoding.
    SizeMismatch,
    /// The event named an asset whose source is not available.
    MissingSource,
}

/// The three-component float array behind an attribute, if that is its
/// layout.
pub open spec fn f32x3_of(a: Option<VertexAttributeValues>) -> Option<Seq<Vec3Bits>> {
    match a {
        Some(VertexAttributeValues::Float32x3(v)) => Some(v@),
        _ => None,
    }
}

/// The two-component float array behind an attribute, if that is its
/// layout.
pub open spec fn f32x2_of(a: Option<VertexAttributeValues>) -> Option<Seq<Vec2Bits>> {
    match a {
        Some(VertexAttributeValues::Float32x2(v)) => Some(v@),
        _ => None,
    }
}

/// The index list promoted to 32 bits.
pub open spec fn indices32_of(a: Option<Indices>) -> Option<Seq<u32>> {
    match a {
        Some(Indices::U16(v)) => Some(v@.map_values(|x: u16| x as u32)),
        Some(Indices::U32(v)) => Some(v@),
        None => None,
    }
}

/// Why a mesh source is rejected, if it is: a missing or mislaid position,
/// normal or texture-coordinate attribute, in that order, then a missing
/// index list.
pub open spec fn spec_mesh_error(src: MeshSource) -> Option<EncodeError> {
    if src.positions is None {
        Some(EncodeError::MissingAttribute(VertexSlot::Position))
    } else if f32x3_of(src.positions) is None {
        Some(EncodeError::UnsupportedAttribute(VertexSlot::Position))
    } else if src.normals is None {
        Some(EncodeError::MissingAttribute(VertexSlot::Normal))
    } else if f32x3_of(src.normals) is None {
        Some(EncodeError::UnsupportedAttribute(VertexSlot::Normal))
    } else if src.uvs is None {
        Some(EncodeError::MissingAttribute(VertexSlot::Uv))
    } else if f32x2_of(src.uvs) is None {
        Some(EncodeError::UnsupportedAttribute(VertexSlot::Uv))
    } else if src.indices is None {
        Some(EncodeError::MissingIndices)
    } else {
        None
    }
}

/// How many vertex records an accepted source encodes to: attribute arrays
/// are walked together and the shortest one ends the walk.
pub open spec fn spec_vertex_count(src: MeshSource) -> int {
    let p = f32x3_of(src.positions).unwrap().len() as int;
    let n = f32x3_of(src.normals).unwrap().len() as int;
    let u = f32x2_of(src.uvs).unwrap().len() as int;
    if p <= n && p <= u {
        p
    } else if n <= u {
        n
    } else {
        u
    }
}

/// What an accepted mesh source encodes to: the vertex records zipped from
/// the attribute arrays, the promoted index list, and the bound folded
/// over exactly the encoded positions.
pub open spec fn spec_encode_ok(src: MeshSource) -> CpuMeshView {
    let ps = f32x3_of(src.positions).unwrap();
    let ns = f32x3_of(src.normals).unwrap();
    let us = f32x2_of(src.uvs).unwrap();
    let n = spec_vertex_count(src);
    let bound = fold_points(ps.take(n));
    CpuMeshView {
        aabb_min: bound.min,
        aabb_max: bound.max,
        indices: indices32_of(src.indices).unwrap(),
        vertices: Seq::new(
            n as nat,
            |k: int| GpuVertex { position: ps[k], normal: ns[k], uv: us[k] },
        ),
    }
}

/// Encodes one mesh source into fixed-layout vertex records, a promoted
/// index list and the mesh's object-space bound. Rejects exactly the
/// sources [`spec_mesh_error`] rejects, with that error.
pub fn encode_mesh(src: &MeshSource) -> (r: Result<CpuMesh, EncodeError>)
    ensures
        match r {
            Ok(cpu) => spec_mesh_error(*src) is None && cpu@ == spec_encode_ok(*src),
            Err(e) => spec_mesh_error(*src) == Some(e),
        },
{
    let ps: &Vec<Vec3Bits> = match &src.positions {
        None => {
            return Err(EncodeError::MissingAttribute(VertexSlot::Position));
        },
        Some(VertexAttributeValues::Float32x3(v)) => v,
        Some(_) => {
            return Err(EncodeError::UnsupportedAttribute(VertexSlot::Position));
        },
    };
    let ns: &Vec<Vec3Bits> = match &src.normals {
        None => {
            return Err(EncodeError::MissingAttribute(VertexSlot::Normal));
        },
        Some(VertexAttributeValues::Float32x3(v)) => v,
        Some(_) => {
            return Err(EncodeError::UnsupportedAttribute(VertexSlot::Normal));
        },
    };
    let us: &Vec<Vec2Bits> = match &src.uvs {
        None => {
            return Err(EncodeError::MissingAttribute(VertexSlot::Uv));
        },
        Some(VertexAttributeValues::Float32x2(v)) => v,
        Some(_) => {
            return Err(EncodeError::UnsupportedAttribute(VertexSlot::Uv));
        },
    };

    let n = {
        let p = ps.len();
        let nn = ns.len();
        let u = us.len();
        if p <= nn && p <= u {
            p
        } else if nn <= u {
            nn
        } else {
            u
        }
    };
    proof {
        assert(n == spec_vertex_count(*src));
    }

    let mut bound = Aabb::empty();
    let mut vertices: Vec<GpuVertex> = Vec::new();
    let mut k: usize = 0;
    while k < n
        invariant
            n == spec_vertex_count(*src),
            n <= ps@.len(),
            n <= ns@.len(),
            n <= us@.len(),
            ps@ == f32x3_of(src.positions).unwrap(),
            ns@ == f32x3_of(src.normals).unwrap(),
            us@ == f32x2_of(src.uvs).unwrap(),
            k <= n,
            bound == fold_points(ps@.take(k as int)),
            vertices@ == Seq::new(
                k as nat,
                |j: int| GpuVertex { position: ps@[j], normal: ns@[j], uv: us@[j] },
            ),
        decreases n - k,
    {
        let position = ps[k];
        bound = bound.grow(position);
        vertices.push(GpuVertex { position, normal: ns[k], uv: us[k] });
        proof {
            assert(ps@.take(k + 1 as int).drop_last() =~= ps@.take(k as int));
            assert(ps@.take(k + 1 as int).last() == ps@[k as int]);
            assert(bound == fold_points(ps@.take(k + 1 as int)));
            assert(vertices@ =~= Seq::new(
                (k + 1) as nat,
                |j: int| GpuVertex { position: ps@[j], normal: ns@[j], uv: us@[j] },
            ));
        }
        k = k + 1;
    }

    let indices: Vec<u32> = match &src.indices {
        None => {
            return Err(EncodeError::MissingIndices);
        },
        Some(Indices::U32(v)) => {
            let mut out: Vec<u32> = Vec::new();
            let mut j: usize = 0;
            while j < v.len()
                invariant
                    j <= v@.len(),
                    out@ == v@.take(j as int),
                decreases v@.len() - j,
            {
                out.push(v[j]);
                proof {
                    assert(out@ =~= v@.take(j + 1 as int));
                }
                j = j + 1;
            }
            proof {
                assert(out@ =~= v@);
            }
            out
        },
        Some(Indices::U16(v)) => {
            let mut out: Vec<u32> = Vec::new();
            let mut j: usize = 0;
            while j < v.len()
                invariant
                    j <= v@.len(),
                    out@ == v@.take(j as int).map_values(|x: u16| x as u32),
                decreases v@.len() - j,
            {
                out.push(v[j] as u32);
                proof {
                    assert(out@ =~= v@.take(j + 1 as int).map_values(|x: u16| x as u32));
                }
                j = j + 1;
            }
            proof {
                assert(v@.take(v@.len() as int) =~= v@);
            }
            out
        },
    };

    proof {
        assert(ps@.take(n as int) =~= ps@.take(spec_vertex_count(*src)));
    }
    Ok(
        CpuMesh {
            aabb_min: bound.min,
            aabb_max: bound.max,
            indices,
            vertices,
        },
    )
}

/// The staged meshes: encoded records, the identity table giving each
/// asset its dense slot, and the flag that tells the flattening pass
/// whether anything happened since it last ran.
pub struct ProcessedMeshes {
    pub meshes: Vec<CpuMesh>,
    pub asset_to_index: IdTable,
    pub changed: bool,
}

/// Mathematical image of the staged meshes.
pub ghost struct MeshStoreView {
    pub ids: Seq<u64>,
    pub meshes: Seq<CpuMeshView>,
    pub changed: bool,
}

/// The views of a record sequence.
pub open spec fn mesh_views(ms: Seq<CpuMesh>) -> Seq<CpuMeshView> {
    ms.map_values(|m: CpuMesh| m@)
}

impl View for ProcessedMeshes {
    type V = MeshStoreView;

    open spec fn view(&self) -> MeshStoreView {
        MeshStoreView {
            ids: self.asset_to_index@,
            meshes: mesh_views(self.meshes@),
            changed: self.changed,
        }
    }
}

impl MeshStoreView {
    /// One slot per identity, one record per slot.
    pub open spec fn wf(self) -> bool {
        &&& crate::table::distinct_ids(self.ids)
        &&& self.ids.len() == self.meshes.len()
    }
}

/// The slot an identity owns (meaningful when the identity is registered
/// in a table without duplicates).
pub open spec fn slot_in(ids: Seq<u64>, id: u64) -> int {
    choose|k: int| 0 <= k < ids.len() && ids[k] == id
}

/// Erasing one asset: its slot disappears from table and records alike,
/// shifting every larger slot down; an unregistered identity changes
/// nothing.
pub open spec fn store_remove(s: MeshStoreView, id: u64) -> MeshStoreView {
    if s.ids.contains(id) {
        let k = slot_in(s.ids, id);
        MeshStoreView { ids: s.ids.remove(k), meshes: s.meshes.remove(k), changed: s.changed }
    } else {
        s
    }
}

/// Upserting one asset: a registered identity's record is replaced in
/// place at its stable slot; a new identity is appended.
pub open spec fn store_upsert(s: MeshStoreView, id: u64, mv: CpuMeshView) -> MeshStoreView {
    if s.ids.contains(id) {
        MeshStoreView {
            ids: s.ids,
            meshes: s.meshes.update(slot_in(s.ids, id), mv),
            changed: s.changed,
        }
    } else {
        MeshStoreView { ids: s.ids.push(id), meshes: s.meshes.push(mv), changed: s.changed }
    }
}

/// The identities the pass erases, in event order.
pub open spec fn removal_ids(events: Seq<AssetEvent>) -> Seq<u64>
    decreases events.len(),
{
    if events.len() == 0 {
        Seq::empty()
    } else {
        removal_ids(events.drop_last()) + match events.last() {
            AssetEvent::Removed { id } => seq![id],
            AssetEvent::Unused { id } => seq![id],
            _ => Seq::empty(),
        }
    }
}

/// The identities the pass (re)encodes, in event order.
pub open spec fn upsert_ids(events: Seq<AssetEvent>) -> Seq<u64>
    decreases events.len(),
{
    if events.len() == 0 {
        Seq::empty()
    } else {
        upsert_ids(events.drop_last()) + match events.last() {
            AssetEvent::Added { id } => seq![id],
            AssetEvent::Modified { id } => seq![id],
            AssetEvent::LoadedWithDependencies { id } => seq![id],
            _ => Seq::empty(),
        }
    }
}

/// The source registered under an identity, by first match.
pub open spec fn mesh_asset_source(assets: Seq<(u64, MeshSource)>, id: u64) -> Option<MeshSource>
    decreases assets.len(),
{
    if assets.len() == 0 {
        None
    } else if assets[0].0 == id {
        Some(assets[0].1)
    } else {
        mesh_asset_source(assets.drop_first(), id)
    }
}

/// All erasures of one pass, applied left to right.
pub open spec fn remove_pass(s: MeshStoreView, ids: Seq<u64>) -> MeshStoreView
    decreases ids.len(),
{
    if ids.len() == 0 {
        s
    } else {
        store_remove(remove_pass(s, ids.drop_last()), ids.last())
    }
}

/// One upsert of the pass: the identity's source is fetched and encoded;
/// a missing or rejected source leaves the store as it was.
pub open spec fn upsert_step(
    s: MeshStoreView,
    assets: Seq<(u64, MeshSource)>,
    id: u64,
) -> MeshStoreView {
    match mesh_asset_source(assets, id) {
        None => s,
        Some(src) => match spec_mesh_error(src) {
            Some(_) => s,
            None => store_upsert(s, id, spec_encode_ok(src)),
        },
    }
}

/// All upserts of one pass, applied left to right.
pub open spec fn upsert_pass(
    s: MeshStoreView,
    assets: Seq<(u64, MeshSource)>,
    ids: Seq<u64>,
) -> MeshStoreView
    decreases ids.len(),
{
    if ids.len() == 0 {
        s
    } else {
        upsert_step(upsert_pass(s, assets, ids.drop_last()), assets, ids.last())
    }
}

/// What one upsert reports: nothing, or one error against its identity.
pub open spec fn upsert_report(assets: Seq<(u64, MeshSource)>, id: u64) -> Seq<(u64, EncodeError)> {
    match mesh_asset_source(assets, id) {
        None => seq![(id, EncodeError::MissingSource)],
        Some(src) => match spec_mesh_error(src) {
            Some(e) => seq![(id, e)],
            None => Seq::empty(),
        },
    }
}

/// Everything one pass reports, in upsert order.
pub open spec fn upsert_reports(
    assets: Seq<(u64, MeshSource)>,
    ids: Seq<u64>,
) -> Seq<(u64, EncodeError)>
    decreases ids.len(),
{
    if ids.len() == 0 {
        Seq::empty()
    } else {
        upsert_reports(assets, ids.drop_last()) + upsert_report(assets, ids.last())
    }
}

impl ProcessedMeshes {
    /// An empty store.
    pub fn new() -> (s: ProcessedMeshes)
        ensures
            s@.ids =~= Seq::<u64>::empty(),
            s@.meshes =~= Seq::<CpuMeshView>::empty(),
            !s@.changed,
            s@.wf(),
    {
        let s = ProcessedMeshes { meshes: Vec::new(), asset_to_index: IdTable::new(), changed: false };
        proof {
            assert(s@.meshes =~= Seq::<CpuMeshView>::empty());
        }
        s
    }

    /// Erases one asset's slot, if registered.
    fn remove_mesh(&mut self, id: u64)
        requires
            old(self)@.wf(),
        ensures
            final(self)@ == store_remove(old(self)@, id),
            final(self)@.wf(),
    {
        let r = self.asset_to_index.remove_id(id);
        match r {
            Some(k) => {
                self.meshes.remove(k);
                proof {
                    let oldv = old(self)@;
                    assert(oldv.ids.contains(id)) by {
                        assert(oldv.ids[k as int] == id);
                    }
                    let kk = slot_in(oldv.ids, id);
                    assert(oldv.ids[kk] == id);
                    assert(kk == k);
                    assert(mesh_views(self.meshes@) =~= oldv.meshes.remove(k as int)) by {
                        assert(self.meshes@ == old(self).meshes@.remove(k as int));
                    }
                }
            },
            None => {
                proof {
                    assert(final(self)@ == store_remove(old(self)@, id));
                }
            },
        }
    }

    /// Replaces or appends one asset's record at its stable slot.
    fn upsert_mesh(&mut self, id: u64, cpu: CpuMesh)
        requires
            old(self)@.wf(),
        ensures
            final(self)@ == store_upsert(old(self)@, id, cpu@),
            final(self)@.wf(),
    {
        let r = self.asset_to_index.slot_of(id);
        match r {
            Some(k) => {
                self.meshes[k] = cpu;
                proof {
                    let oldv = old(self)@;
                    assert(oldv.ids.contains(id)) by {
                        assert(oldv.ids[k as int] == id);
                    }
                    let kk = slot_in(oldv.ids, id);
                    assert(oldv.ids[kk] == id);
                    assert(kk == k);
                    assert(mesh_views(self.meshes@) =~= oldv.meshes.update(k as int, cpu@)) by {
                        assert(self.meshes@ == old(self).meshes@.update(k as int, cpu));
                    }
                }
            },
            None => {
                self.asset_to_index.push_id(id);
                self.meshes.push(cpu);
                proof {
                    assert(mesh_views(self.meshes@) =~= old(self)@.meshes.push(cpu@)) by {
                        assert(self.meshes@ == old(self).meshes@.push(cpu));
                    }
                }
            },
        }
    }
}

/// The source registered under an identity, by first match.
fn find_mesh_source(assets: &Vec<(u64, MeshSource)>, id: u64) -> (r: Option<&MeshSource>)
    ensures
        match r {
            Some(src) => mesh_asset_source(assets@, id) == Some(*src),
            None => mesh_asset_source(assets@, id) is None,
        },
{
    let mut i: usize = 0;
    proof {
        assert(assets@.skip(0) =~= assets@);
    }
    while i < assets.len()
        invariant
            i <= assets@.len(),
            mesh_asset_source(assets@, id) == mesh_asset_source(assets@.skip(i as int), id),
        decreases assets@.len() - i,
    {
        proof {
            assert(assets@.skip(i as int).drop_first() =~= assets@.skip(i + 1 as int));
            assert(assets@.skip(i as int)[0] == assets@[i as int]);
        }
        if assets[i].0 == id {
            return Some(&assets[i].1);
        }
        i = i + 1;
    }
    proof {
        assert(assets@.skip(assets@.len() as int).len() == 0);
    }
    None
}

/// One diff pass of the mesh kind. Every `Removed` or `Unused` event
/// erases its asset's slot and compacts the table; every `Added`,
/// `Modified` or `LoadedWithDependencies` event re-encodes its asset's
/// source and upserts the record at a stable slot, appending when new. An
/// asset whose source is missing or rejected is reported in the returned
/// list and skipped. Any event at all marks the store changed.
pub fn extract_meshes(
    events: &Vec<AssetEvent>,
    assets: &Vec<(u64, MeshSource)>,
    processed_meshes: &mut ProcessedMeshes,
) -> (reports: Vec<(u64, EncodeError)>)
    requires
        old(processed_meshes)@.wf(),
    ensures
        final(processed_meshes)@.wf(),
        final(processed_meshes)@ == ({
            let s1 = MeshStoreView {
                ids: old(processed_meshes)@.ids,
                meshes: old(processed_meshes)@.meshes,
                changed: old(processed_meshes)@.changed || events@.len() > 0,
            };
            upsert_pass(
                remove_pass(s1, removal_ids(events@)),
                assets@,
                upsert_ids(events@),
            )
        }),
        reports@ == upsert_reports(assets@, upsert_ids(events@)),
{
    let mut remove: Vec<u64> = Vec::new();
    let mut extract: Vec<u64> = Vec::new();

    let mut i: usize = 0;
    while i < events.len()
        invariant
            i <= events@.len(),
            remove@ == removal_ids(events@.take(i as int)),
            extract@ == upsert_ids(events@.take(i as int)),
            processed_meshes@ == (MeshStoreView {
                ids: old(processed_meshes)@.ids,
                meshes: old(processed_meshes)@.meshes,
                changed: old(processed_meshes)@.changed || i > 0,
            }),
        decreases events@.len() - i,
    {
        proof {
            assert(events@.take(i + 1 as int).drop_last() =~= events@.take(i as int));
            assert(events@.take(i + 1 as int).last() == events@[i as int]);
        }
        match events[i] {
            AssetEvent::Added { id } => extract.push(id),
            AssetEvent::Modified { id } => extract.push(id),
            AssetEvent::LoadedWithDependencies { id } => extract.push(id),
            AssetEvent::Removed { id } => remove.push(id),
            AssetEvent::Unused { id } => remove.push(id),
        }
        processed_meshes.changed = true;
        proof {
            assert(remove@ =~= removal_ids(events@.take(i + 1 as int)));
            assert(extract@ =~= upsert_ids(events@.take(i + 1 as int)));
        }
        i = i + 1;
    }
    proof {
        assert(events@.take(events@.len() as int) =~= events@);
    }

    let ghost s1 = processed_meshes@;
    let mut j: usize = 0;
    while j < remove.len()
        invariant
            j <= remove@.len(),
            processed_meshes@ == remove_pass(s1, remove@.take(j as int)),
            processed_meshes@.wf(),
            s1.wf(),
        decreases remove@.len() - j,
    {
        proof {
            assert(remove@.take(j + 1 as int).drop_last() =~= remove@.take(j as int));
            assert(remove@.take(j + 1 as int).last() == remove@[j as int]);
        }
        let id = remove[j];
        processed_meshes.remove_mesh(id);
        j = j + 1;
    }
    proof {
        assert(remove@.take(remove@.len() as int) =~= remove@);
    }

    let ghost s2 = processed_meshes@;
    let mut reports: Vec<(u64, EncodeError)> = Vec::new();
    let mut j: usize = 0;
    while j < extract.len()
        invariant
            j <= extract@.len(),
            processed_meshes@ == upsert_pass(s2, assets@, extract@.take(j as int)),
            processed_meshes@.wf(),
            reports@ == upsert_reports(assets@, extract@.take(j as int)),
        decreases extract@.len() - j,
    {
        proof {
            assert(extract@.take(j + 1 as int).drop_last() =~= extract@.take(j as int));
            assert(extract@.take(j + 1 as int).last() == extract@[j as int]);
        }
        let id = extract[j];
        match find_mesh_source(assets, id) {
            None => {
                reports.push((id, EncodeError::MissingSource));
                proof {
                    assert(reports@ =~= upsert_reports(assets@, extract@.take(j + 1 as int)));
                }
            },
            Some(src) => {
                match encode_mesh(src) {
                    Ok(cpu) => {
                        processed_meshes.upsert_mesh(id, cpu);
                        proof {
                            assert(reports@ =~= upsert_reports(
                                assets@,
                                extract@.take(j + 1 as int),
                            ));
                        }
                    },
                    Err(e) => {
                        reports.push((id, e));
                        proof {
                            assert(reports@ =~= upsert_reports(
                                assets@,
                                extract@.take(j + 1 as int),
                            ));
                        }
                    },
                }
            },
        }
        j = j + 1;
    }
    proof {
        assert(extract@.take(extract@.len() as int) =~= extract@);
    }
    reports
}

/// The shared index pool: every staged mesh's index list, in slot order.
pub open spec fn pool_indices(ms: Seq<CpuMeshView>) -> Seq<u32>
    decreases ms.len(),
{
    if ms.len() == 0 {
        Seq::empty()
    } else {
        pool_indices(ms.drop_last()) + ms.last().indices
    }
}

/// The shared vertex pool: every staged mesh's vertex records, in slot
/// order.
pub open spec fn pool_vertices(ms: Seq<CpuMeshView>) -> Seq<GpuVertex>
    decreases ms.len(),
{
    if ms.len() == 0 {
        Seq::empty()
    } else {
        pool_vertices(ms.drop_last()) + ms.last().vertices
    }
}

/// The flattened record of mesh `i`: its bound, its region heads — the
/// pool lengths contributed by the meshes before it — and its triangle
/// count.
pub open spec fn spec_gpu_mesh(ms: Seq<CpuMeshView>, i: int) -> crate::data::GpuMesh {
    crate::data::GpuMesh {
        aabb_min: ms[i].aabb_min,
        aabb_max: ms[i].aabb_max,
        ihead: pool_indices(ms.take(i)).len() as u32,
        vhead: pool_vertices(ms.take(i)).len() as u32,
        tri_count: (ms[i].indices.len() as int / 3) as u32,
    }
}

/// A prefix of the store contributes no more to a pool than the whole
/// store, and one mesh more contributes exactly that mesh's arrays.
proof fn lemma_pool_prefix(ms: Seq<CpuMeshView>, i: int)
    requires
        0 <= i <= ms.len(),
    ensures
        pool_indices(ms.take(i)).len() <= pool_indices(ms).len(),
        pool_vertices(ms.take(i)).len() <= pool_vertices(ms).len(),
        i < ms.len() ==> {
            &&& pool_indices(ms.take(i + 1)) == pool_indices(ms.take(i)) + ms[i].indices
            &&& pool_vertices(ms.take(i + 1)) == pool_vertices(ms.take(i)) + ms[i].vertices
        },
    decreases ms.len() - i,
{
    if i == ms.len() {
        assert(ms.take(i) =~= ms);
    } else {
        assert(ms.take(i + 1).drop_last() =~= ms.take(i));
        assert(ms.take(i + 1).last() == ms[i]);
        lemma_pool_prefix(ms, i + 1);
    }
}

/// Re-flattens the shared pools from the staged meshes when anything
/// changed since the last pass, and reports whether it did. Each record's
/// region heads are the pool lengths before it, so every mesh's region
/// lies within the pools; the pass marks the three groups dirty and clears
/// the store's changed flag. Without a change nothing moves.
pub fn prepare_meshes(
    processed_meshes: &mut ProcessedMeshes,
    raytrace_meta: &mut crate::data::RayTraceMeta,
) -> (wrote: bool)
    requires
        old(processed_meshes)@.wf(),
        pool_indices(old(processed_meshes)@.meshes).len() <= 0xFFFF_FFFF,
        pool_vertices(old(processed_meshes)@.meshes).len() <= 0xFFFF_FFFF,
    ensures
        final(processed_meshes)@.ids == old(processed_meshes)@.ids,
        final(processed_meshes)@.meshes == old(processed_meshes)@.meshes,
        final(processed_meshes)@.wf(),
        !final(processed_meshes)@.changed,
        wrote == old(processed_meshes)@.changed,
        !old(processed_meshes)@.changed ==> *final(raytrace_meta) == *old(raytrace_meta)
            && final(processed_meshes)@ == old(processed_meshes)@,
        old(processed_meshes)@.changed ==> ({
            let ms = old(processed_meshes)@.meshes;
            let meta = *final(raytrace_meta);
            &&& meta.meshes@.len() == ms.len()
            &&& forall|i: int| 0 <= i < ms.len() ==> meta.meshes@[i] == spec_gpu_mesh(ms, i)
            &&& meta.indices@ == pool_indices(ms)
            &&& meta.vertices@ == pool_vertices(ms)
            &&& forall|i: int|
                0 <= i < ms.len() ==> #[trigger] meta.meshes@[i].ihead + 3 * meta.meshes@[i].tri_count
                    <= meta.indices@.len() && meta.meshes@[i].vhead + ms[i].vertices.len()
                    <= meta.vertices@.len()
            &&& meta.dirty == (crate::data::DirtyFlags {
                meshes: true,
                indices: true,
                vertices: true,
                ..old(raytrace_meta).dirty
            })
            &&& meta.objects@ == old(raytrace_meta).objects@
            &&& meta.emissives@ == old(raytrace_meta).emissives@
            &&& meta.handle_to_material@ == old(raytrace_meta).handle_to_material@
            &&& meta.handle_to_texture@ == old(raytrace_meta).handle_to_texture@
            &&& meta.materials@ == old(raytrace_meta).materials@
            &&& meta.textures@ == old(raytrace_meta).textures@
            &&& meta.texture_data.data@ == old(raytrace_meta).texture_data.data@
        }),
{
    if !processed_meshes.changed {
        return false;
    }
    processed_meshes.changed = false;

    let ghost ms = old(processed_meshes)@.meshes;
    let n = processed_meshes.meshes.len();
    let mut meshes: Vec<crate::data::GpuMesh> = Vec::new();
    let mut indices: Vec<u32> = Vec::new();
    let mut vertices: Vec<GpuVertex> = Vec::new();

    let mut i: usize = 0;
    while i < n
        invariant
            processed_meshes@.meshes == ms,
            n == ms.len(),
            pool_indices(ms).len() <= 0xFFFF_FFFF,
            pool_vertices(ms).len() <= 0xFFFF_FFFF,
            i <= n,
            meshes@.len() == i,
            forall|j: int| 0 <= j < i ==> meshes@[j] == spec_gpu_mesh(ms, j),
            indices@ == pool_indices(ms.take(i as int)),
            vertices@ == pool_vertices(ms.take(i as int)),
            forall|j: int|
                0 <= j < i ==> #[trigger] meshes@[j].ihead + 3 * meshes@[j].tri_count
                    <= pool_indices(ms).len() && meshes@[j].vhead + ms[j].vertices.len()
                    <= pool_vertices(ms).len(),
        decreases n - i,
    {
        proof {
            lemma_pool_prefix(ms, i as int);
            lemma_pool_prefix(ms, i + 1);
        }
        let mesh = &processed_meshes.meshes[i];
        let tri_count = (mesh.indices.len() / 3) as u32;
        let gpu_mesh = crate::data::GpuMesh {
            aabb_min: mesh.aabb_min,
            aabb_max: mesh.aabb_max,
            ihead: indices.len() as u32,
            vhead: vertices.len() as u32,
            tri_count,
        };
        indices.extend_from_slice(mesh.indices.as_slice());
        vertices.extend_from_slice(mesh.vertices.as_slice());
        meshes.push(gpu_mesh);
        proof {
            assert(ms[i as int] == processed_meshes.meshes@[i as int]@);
            assert(indices@ == pool_indices(ms.take(i + 1)));
            assert(vertices@ == pool_vertices(ms.take(i + 1)));
            assert(meshes@[i as int] == spec_gpu_mesh(ms, i as int));
            assert(3 * (ms[i as int].indices.len() as int / 3) <= ms[i as int].indices.len());
            assert(pool_indices(ms.take(i as int)).len() + ms[i as int].indices.len()
                <= pool_indices(ms).len());
            assert(pool_vertices(ms.take(i as int)).len() + ms[i as int].vertices.len()
                <= pool_vertices(ms).len());
            assert(meshes@[i as int].ihead + 3 * meshes@[i as int].tri_count <= pool_indices(
                ms,
            ).len());
            assert(meshes@[i as int].vhead + ms[i as int].vertices.len() <= pool_vertices(
                ms,
            ).len());
        }
        i = i + 1;
    }
    proof {
        assert(ms.take(n as int) =~= ms);
    }

    raytrace_meta.meshes = meshes;
    raytrace_meta.indices = indices;
    raytrace_meta.vertices = vertices;
    raytrace_meta.dirty.meshes = true;
    raytrace_meta.dirty.indices = true;
    raytrace_meta.dirty.vertices = true;
    true
}

/// A material showing any strictly positive emissive channel.
pub open spec fn material_emissive(m: crate::data::Material) -> bool {
    ||| crate::binary32::is_positive(m.emissive.x)
    ||| crate::binary32::is_positive(m.emissive.y)
    ||| crate::binary32::is_positive(m.emissive.z)
}

/// What one visibility pass produces: for every visible instance whose
/// mesh and material identities both resolve, in order, one object record
/// carrying the instance's transforms and the two dense slots; and, for
/// each such object whose bound material has a positive emissive channel,
/// its position in the object list. An invisible instance contributes
/// nothing; one with an unresolved reference is skipped for the pass.
pub open spec fn visible_objects(
    q: Seq<crate::data::VisibleInstance>,
    mesh_ids: Seq<u64>,
    mat_ids: Seq<u64>,
    mats: Seq<crate::data::Material>,
) -> (Seq<crate::data::Object>, Seq<u32>)
    decreases q.len(),
{
    if q.len() == 0 {
        (Seq::empty(), Seq::empty())
    } else {
        let prev = visible_objects(q.drop_last(), mesh_ids, mat_ids, mats);
        let inst = q.last();
        if inst.visible && mesh_ids.contains(inst.mesh) && mat_ids.contains(inst.material) {
            let mat_slot = slot_in(mat_ids, inst.material);
            let obj = crate::data::Object {
                local_to_world: inst.local_to_world,
                world_to_local: inst.world_to_local,
                mat: mat_slot as u32,
                mesh: slot_in(mesh_ids, inst.mesh) as u32,
            };
            if material_emissive(mats[mat_slot]) {
                (prev.0.push(obj), prev.1.push(prev.0.len() as u32))
            } else {
                (prev.0.push(obj), prev.1)
            }
        } else {
            prev
        }
    }
}

/// One visibility pass: resolves every visible instance against the mesh
/// and material tables, rebuilding the object and emissive lists from
/// scratch, and marks both groups dirty. Every emitted object's slots name
/// live table entries; an instance referencing an unregistered mesh or
/// material is skipped for this pass, to heal once its asset lands.
pub fn extract_visible(
    query: &Vec<crate::data::VisibleInstance>,
    processed_meshes: &ProcessedMeshes,
    raytrace_meta: &mut crate::data::RayTraceMeta,
)
    requires
        processed_meshes@.wf(),
        old(raytrace_meta).handle_to_material.wf(),
        processed_meshes@.ids.len() < 0xFFFF_FFFF,
        old(raytrace_meta).handle_to_material@.len() < 0xFFFF_FFFF,
        old(raytrace_meta).materials@.len() == old(raytrace_meta).handle_to_material@.len(),
    ensures
        ({
            let out = visible_objects(
                query@,
                processed_meshes@.ids,
                old(raytrace_meta).handle_to_material@,
                old(raytrace_meta).materials@,
            );
            let meta = *final(raytrace_meta);
            &&& meta.objects@ == out.0
            &&& meta.emissives@ == out.1
            &&& forall|i: int|
                0 <= i < out.0.len() ==> #[trigger] out.0[i].mesh < processed_meshes@.ids.len()
                    && out.0[i].mat < old(raytrace_meta).handle_to_material@.len()
            &&& forall|i: int| 0 <= i < out.1.len() ==> #[trigger] out.1[i] < out.0.len()
            &&& meta.dirty == (crate::data::DirtyFlags {
                objects: true,
                emissives: true,
                ..old(raytrace_meta).dirty
            })
            &&& meta.meshes@ == old(raytrace_meta).meshes@
            &&& meta.indices@ == old(raytrace_meta).indices@
            &&& meta.vertices@ == old(raytrace_meta).vertices@
            &&& meta.handle_to_material@ == old(raytrace_meta).handle_to_material@
            &&& meta.handle_to_texture@ == old(raytrace_meta).handle_to_texture@
            &&& meta.materials@ == old(raytrace_meta).materials@
            &&& meta.textures@ == old(raytrace_meta).textures@
            &&& meta.texture_data.data@ == old(raytrace_meta).texture_data.data@
        }),
{
    let ghost mesh_ids = processed_meshes@.ids;
    let ghost mat_ids = old(raytrace_meta).handle_to_material@;
    let ghost mats = old(raytrace_meta).materials@;

    let mut objects: Vec<crate::data::Object> = Vec::new();
    let mut emissives: Vec<u32> = Vec::new();

    let mut i: usize = 0;
    while i < query.len()
        invariant
            processed_meshes@.wf(),
            raytrace_meta.handle_to_material.wf(),
            mesh_ids == processed_meshes@.ids,
            mat_ids == raytrace_meta.handle_to_material@,
            mats == raytrace_meta.materials@,
            *raytrace_meta == *old(raytrace_meta),
            mesh_ids.len() < 0xFFFF_FFFF,
            mat_ids.len() < 0xFFFF_FFFF,
            mats.len() == mat_ids.len(),
            i <= query@.len(),
            (objects@, emissives@) == visible_objects(
                query@.take(i as int),
                mesh_ids,
                mat_ids,
                mats,
            ),
            forall|k: int|
                0 <= k < objects@.len() ==> #[trigger] objects@[k].mesh < mesh_ids.len()
                    && objects@[k].mat < mat_ids.len(),
            forall|k: int| 0 <= k < emissives@.len() ==> #[trigger] emissives@[k] < objects@.len(),
        decreases query@.len() - i,
    {
        proof {
            assert(query@.take(i + 1 as int).drop_last() =~= query@.take(i as int));
            assert(query@.take(i + 1 as int).last() == query@[i as int]);
        }
        let inst = &query[i];
        if inst.visible {
            let mesh_slot = processed_meshes.asset_to_index.slot_of(inst.mesh);
            let mat_slot = raytrace_meta.handle_to_material.slot_of(inst.material);
            match (mesh_slot, mat_slot) {
                (Some(mk), Some(tk)) => {
                    proof {
                        assert(mesh_ids.contains(inst.mesh)) by {
                            assert(mesh_ids[mk as int] == inst.mesh);
                        }
                        assert(mat_ids.contains(inst.material)) by {
                            assert(mat_ids[tk as int] == inst.material);
                        }
                        let mkk = slot_in(mesh_ids, inst.mesh);
                        assert(mesh_ids[mkk] == inst.mesh);
                        assert(mkk == mk);
                        let tkk = slot_in(mat_ids, inst.material);
                        assert(mat_ids[tkk] == inst.material);
                        assert(tkk == tk);
                    }
                    let obj_index = objects.len() as u32;
                    let mat_record = &raytrace_meta.materials[tk];
                    let emissive = crate::binary32::positive_bits(mat_record.emissive.x)
                        || crate::binary32::positive_bits(mat_record.emissive.y)
                        || crate::binary32::positive_bits(mat_record.emissive.z);
                    objects.push(
                        crate::data::Object {
                            local_to_world: inst.local_to_world,
                            world_to_local: inst.world_to_local,
                            mat: tk as u32,
                            mesh: mk as u32,
                        },
                    );
                    if emissive {
                        emissives.push(obj_index);
                    }
                },
                _ => {
                    proof {
                        if mesh_slot is None {
                            assert(!mesh_ids.contains(inst.mesh));
                        }
                        if mat_slot is None {
                            assert(!mat_ids.contains(inst.material));
                        }
                    }
                },
            }
        }
        i = i + 1;
    }
    proof {
        assert(query@.take(query@.len() as int) =~= query@);
    }

    raytrace_meta.objects = objects;
    raytrace_meta.emissives = emissives;
    raytrace_meta.dirty.objects = true;
    raytrace_meta.dirty.emissives = true;
}

/// Idempotence law: upserting the same record for the same asset twice
/// leaves exactly the store that one upsert leaves — re-encoding an
/// unchanged asset is invisible, identically placed record and all. The
/// flattened pools are a function of the store's records, so they too come
/// out identical.
pub proof fn lemma_reencode_idempotent(s: MeshStoreView, id: u64, mv: CpuMeshView)
    requires
        s.wf(),
    ensures
        store_upsert(store_upsert(s, id, mv), id, mv) == store_upsert(s, id, mv),
{
    let s1 = store_upsert(s, id, mv);
    if s.ids.contains(id) {
        let k = slot_in(s.ids, id);
        assert(s.ids[k] == id);
        assert(s1.ids == s.ids);
        assert(s1.ids.contains(id));
        assert(s1.meshes.update(k, mv) =~= s.meshes.update(k, mv));
    } else {
        assert(s1.ids == s.ids.push(id));
        assert(s1.ids[s.ids.len() as int] == id);
        assert(s1.ids.contains(id));
        let k = slot_in(s1.ids, id);
        assert(s1.ids[k] == id);
        assert(k == s.ids.len()) by {
            if k < s.ids.len() {
                assert(s.ids[k] == s1.ids[k]);
                assert(s.ids.contains(id));
            }
        }
        assert(s1.meshes.update(k, mv) =~= s1.meshes);
    }
}

} // verus!

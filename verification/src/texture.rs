//! Texture normalization: heterogeneous source encodings become one
//! canonical binary32 sample pool, with per-texture metadata.
//!
//! An unrecognized encoding, or a byte payload that does not match the
//! declared size, is a hard, reported error: the asset is skipped and
//! never silently misinterpreted.

use vstd::prelude::*;

use vstd::arithmetic::div_mod::{
    lemma_fundamental_div_mod_converse_div, lemma_fundamental_div_mod_converse_mod,
};

use crate::data::{AssetEvent, Image, ImageView, Texture, TextureData, TextureFormat};
use crate::decode::{half_decodes, half_to_bits, ufloat9e5_bits, ufloat9e5_decodes,
    unorm8_decodes, unorm8_to_bits};
use crate::extract::{removal_ids, slot_in, upsert_ids, EncodeError};
use crate::table::IdTable;

verus! {

/// Bytes of one texel in each encoding.
pub open spec fn bytes_per_texel(f: TextureFormat) -> int {
    match f {
        TextureFormat::Rgba8UnormSrgb => 4,
        TextureFormat::Rgba16Float => 8,
        TextureFormat::Rgb9e5Ufloat => 4,
        TextureFormat::R8Unorm => 1,
        TextureFormat::Rg8Unorm => 2,
        TextureFormat::Unrecognized => 0,
    }
}

/// Channel count recorded for each encoding.
pub open spec fn channel_count(f: TextureFormat) -> int {
    match f {
        TextureFormat::Rgba8UnormSrgb => 4,
        TextureFormat::Rgba16Float => 4,
        TextureFormat::Rgb9e5Ufloat => 3,
        TextureFormat::R8Unorm => 1,
        TextureFormat::Rg8Unorm => 2,
        TextureFormat::Unrecognized => 0,
    }
}

/// How many canonical samples an image normalizes to. The byte-normalized
/// encodings yield one sample per byte; the half-precision encoding one
/// per byte pair; the shared-exponent encoding three per packed texel.
pub open spec fn sample_count(img: ImageView) -> int {
    match img.format {
        TextureFormat::Rgba8UnormSrgb => img.data.len() as int,
        TextureFormat::Rgba16Float => img.data.len() as int / 2,
        TextureFormat::Rgb9e5Ufloat => 3 * (img.data.len() as int / 4),
        TextureFormat::R8Unorm => img.data.len() as int,
        TextureFormat::Rg8Unorm => img.data.len() as int,
        TextureFormat::Unrecognized => 0,
    }
}

/// Why an image is rejected, if it is: an encoding outside the supported
/// set, or a byte payload whose length does not match width, height and
/// encoding.
pub open spec fn image_error(img: ImageView) -> Option<EncodeError> {
    if img.format == TextureFormat::Unrecognized {
        Some(EncodeError::UnsupportedFormat)
    } else if img.data.len() != img.width * img.height * bytes_per_texel(img.format) {
        Some(EncodeError::SizeMismatch)
    } else {
        None
    }
}

/// The half-precision pattern stored little-endian at byte pair `j`.
pub open spec fn half_at(d: Seq<u8>, j: int) -> u16 {
    (d[2 * j] + 0x100 * d[2 * j + 1]) as u16
}

/// The packed shared-exponent texel stored little-endian at slot `t`.
pub open spec fn texel32_at(d: Seq<u8>, t: int) -> int {
    d[4 * t] + 0x100 * d[4 * t + 1] + 0x1_0000 * d[4 * t + 2] + 0x100_0000 * d[4 * t + 3]
}

/// Mantissa of channel `c` of a packed shared-exponent texel.
pub open spec fn rgb9e5_mantissa(v: int, c: int) -> int {
    if c == 0 {
        v % 0x200
    } else if c == 1 {
        (v / 0x200) % 0x200
    } else {
        (v / 0x4_0000) % 0x200
    }
}

/// Shared exponent of a packed texel.
pub open spec fn rgb9e5_exp(v: int) -> int {
    v / 0x800_0000
}

/// Sample `j` of the normalized image is the pattern `s`: the decode
/// relation of the image's encoding, at that sample's source bytes.
pub open spec fn sample_decodes(img: ImageView, j: int, s: u32) -> bool {
    match img.format {
        TextureFormat::Rgba8UnormSrgb => unorm8_decodes(img.data[j], s),
        TextureFormat::R8Unorm => unorm8_decodes(img.data[j], s),
        TextureFormat::Rg8Unorm => unorm8_decodes(img.data[j], s),
        TextureFormat::Rgba16Float => half_decodes(half_at(img.data, j), s),
        TextureFormat::Rgb9e5Ufloat => {
            let v = texel32_at(img.data, j / 3);
            ufloat9e5_decodes(
                rgb9e5_mantissa(v, j % 3) as u32,
                rgb9e5_exp(v) as u32,
                s,
            )
        },
        TextureFormat::Unrecognized => false,
    }
}

/// The staged textures: validated sources, the identity table giving each
/// asset its dense slot, and the flag that tells the flattening pass
/// whether anything happened since it last ran.
pub struct ProcessedTextures {
    pub images: Vec<Image>,
    pub asset_to_index: IdTable,
    pub changed: bool,
}

/// Mathematical image of the staged textures.
pub ghost struct TexStoreView {
    pub ids: Seq<u64>,
    pub images: Seq<ImageView>,
    pub changed: bool,
}

/// The views of an image sequence.
pub open spec fn image_views(ms: Seq<Image>) -> Seq<ImageView> {
    ms.map_values(|m: Image| m@)
}

impl View for ProcessedTextures {
    type V = TexStoreView;

    open spec fn view(&self) -> TexStoreView {
        TexStoreView {
            ids: self.asset_to_index@,
            images: image_views(self.images@),
            changed: self.changed,
        }
    }
}

impl TexStoreView {
    /// One slot per identity, one validated source per slot.
    pub open spec fn wf(self) -> bool {
        &&& crate::table::distinct_ids(self.ids)
        &&& self.ids.len() == self.images.len()
        &&& forall|i: int| 0 <= i < self.images.len() ==> image_error(#[trigger] self.images[i]) is None
    }
}

/// Erasing one texture asset.
pub open spec fn tex_remove(s: TexStoreView, id: u64) -> TexStoreView {
    if s.ids.contains(id) {
        let k = slot_in(s.ids, id);
        TexStoreView { ids: s.ids.remove(k), images: s.images.remove(k), changed: s.changed }
    } else {
        s
    }
}

/// Upserting one texture asset at its stable slot.
pub open spec fn tex_upsert(s: TexStoreView, id: u64, img: ImageView) -> TexStoreView {
    if s.ids.contains(id) {
        TexStoreView {
            ids: s.ids,
            images: s.images.update(slot_in(s.ids, id), img),
            changed: s.changed,
        }
    } else {
        TexStoreView { ids: s.ids.push(id), images: s.images.push(img), changed: s.changed }
    }
}

/// The image registered under an identity, by first match.
pub open spec fn tex_asset_source(assets: Seq<(u64, Image)>, id: u64) -> Option<Image>
    decreases assets.len(),
{
    if assets.len() == 0 {
        None
    } else if assets[0].0 == id {
        Some(assets[0].1)
    } else {
        tex_asset_source(assets.drop_first(), id)
    }
}

/// All erasures of one texture pass, left to right.
pub open spec fn tex_remove_pass(s: TexStoreView, ids: Seq<u64>) -> TexStoreView
    decreases ids.len(),
{
    if ids.len() == 0 {
        s
    } else {
        tex_remove(tex_remove_pass(s, ids.drop_last()), ids.last())
    }
}

/// One upsert of a texture pass: a missing or invalid source leaves the
/// store as it was.
pub open spec fn tex_upsert_step(
    s: TexStoreView,
    assets: Seq<(u64, Image)>,
    id: u64,
) -> TexStoreView {
    match tex_asset_source(assets, id) {
        None => s,
        Some(img) => if image_error(img@) is Some {
            s
        } else {
            tex_upsert(s, id, img@)
        },
    }
}

/// All upserts of one texture pass, left to right.
pub open spec fn tex_upsert_pass(
    s: TexStoreView,
    assets: Seq<(u64, Image)>,
    ids: Seq<u64>,
) -> TexStoreView
    decreases ids.len(),
{
    if ids.len() == 0 {
        s
    } else {
        tex_upsert_step(tex_upsert_pass(s, assets, ids.drop_last()), assets, ids.last())
    }
}

/// What one texture upsert reports.
pub open spec fn tex_upsert_report(assets: Seq<(u64, Image)>, id: u64) -> Seq<(u64, EncodeError)> {
    match tex_asset_source(assets, id) {
        None => seq![(id, EncodeError::MissingSource)],
        Some(img) => match image_error(img@) {
            Some(e) => seq![(id, e)],
            None => Seq::empty(),
        },
    }
}

/// Everything one texture pass reports, in upsert order.
pub open spec fn tex_upsert_reports(
    assets: Seq<(u64, Image)>,
    ids: Seq<u64>,
) -> Seq<(u64, EncodeError)>
    decreases ids.len(),
{
    if ids.len() == 0 {
        Seq::empty()
    } else {
        tex_upsert_reports(assets, ids.drop_last()) + tex_upsert_report(assets, ids.last())
    }
}

impl ProcessedTextures {
    /// An empty store.
    pub fn new() -> (s: ProcessedTextures)
        ensures
            s@.ids =~= Seq::<u64>::empty(),
            s@.images =~= Seq::<ImageView>::empty(),
            !s@.changed,
            s@.wf(),
    {
        let s = ProcessedTextures {
            images: Vec::new(),
            asset_to_index: IdTable::new(),
            changed: false,
        };
        proof {
            assert(s@.images =~= Seq::<ImageView>::empty());
        }
        s
    }

    /// Erases one asset's slot, if registered.
    fn remove_texture(&mut self, id: u64)
        requires
            old(self)@.wf(),
        ensures
            final(self)@ == tex_remove(old(self)@, id),
            final(self)@.wf(),
    {
        let r = self.asset_to_index.remove_id(id);
        match r {
            Some(k) => {
                self.images.remove(k);
                proof {
                    let oldv = old(self)@;
                    assert(oldv.ids.contains(id)) by {
                        assert(oldv.ids[k as int] == id);
                    }
                    let kk = slot_in(oldv.ids, id);
                    assert(oldv.ids[kk] == id);
                    assert(kk == k);
                    assert(image_views(self.images@) =~= oldv.images.remove(k as int)) by {
                        assert(self.images@ == old(self).images@.remove(k as int));
                    }
                    assert forall|i: int| 0 <= i < self@.images.len() implies image_error(
                        #[trigger] self@.images[i],
                    ) is None by {
                        if i < k {
                            assert(self@.images[i] == oldv.images[i]);
                        } else {
                            assert(self@.images[i] == oldv.images[i + 1]);
                        }
                    }
                }
            },
            None => {
                proof {
                    assert(final(self)@ == tex_remove(old(self)@, id));
                }
            },
        }
    }

    /// Replaces or appends one asset's validated source at its stable slot.
    fn upsert_texture(&mut self, id: u64, img: Image)
        requires
            old(self)@.wf(),
            image_error(img@) is None,
        ensures
            final(self)@ == tex_upsert(old(self)@, id, img@),
            final(self)@.wf(),
    {
        let ghost imgv = img@;
        let r = self.asset_to_index.slot_of(id);
        match r {
            Some(k) => {
                self.images[k] = img;
                proof {
                    let oldv = old(self)@;
                    assert(oldv.ids.contains(id)) by {
                        assert(oldv.ids[k as int] == id);
                    }
                    let kk = slot_in(oldv.ids, id);
                    assert(oldv.ids[kk] == id);
                    assert(kk == k);
                    assert(image_views(self.images@) =~= oldv.images.update(k as int, imgv)) by {
                        assert(self.images@ == old(self).images@.update(k as int, img));
                    }
                    assert forall|i: int| 0 <= i < self@.images.len() implies image_error(
                        #[trigger] self@.images[i],
                    ) is None by {
                        if i != k {
                            assert(self@.images[i] == oldv.images[i]);
                        }
                    }
                }
            },
            None => {
                self.asset_to_index.push_id(id);
                self.images.push(img);
                proof {
                    let oldv = old(self)@;
                    assert(image_views(self.images@) =~= oldv.images.push(imgv)) by {
                        assert(self.images@ == old(self).images@.push(img));
                    }
                    assert forall|i: int| 0 <= i < self@.images.len() implies image_error(
                        #[trigger] self@.images[i],
                    ) is None by {
                        if i < oldv.images.len() {
                            assert(self@.images[i] == oldv.images[i]);
                        }
                    }
                }
            },
        }
    }
}

/// The image registered under an identity, by first match.
fn find_image_source(assets: &Vec<(u64, Image)>, id: u64) -> (r: Option<&Image>)
    ensures
        match r {
            Some(img) => tex_asset_source(assets@, id) == Some(*img),
            None => tex_asset_source(assets@, id) is None,
        },
{
    let mut i: usize = 0;
    proof {
        assert(assets@.skip(0) =~= assets@);
    }
    while i < assets.len()
        invariant
            i <= assets@.len(),
            tex_asset_source(assets@, id) == tex_asset_source(assets@.skip(i as int), id),
        decreases assets@.len() - i,
    {
        proof {
            assert(assets@.skip(i as int).drop_first() =~= assets@.skip(i + 1 as int));
            assert(assets@.skip(i as int)[0] == assets@[i as int]);
        }
        if assets[i].0 == id {
            return Some(&assets[i].1);
        }
        i = i + 1;
    }
    proof {
        assert(assets@.skip(assets@.len() as int).len() == 0);
    }
    None
}

/// One diff pass of the texture kind, mirroring the mesh pass: erasures
/// compact the table, upserts validate the source first, and an asset
/// whose source is missing, carries an unrecognized encoding or a
/// mismatched payload is reported and skipped.
pub fn extract_textures(
    events: &Vec<AssetEvent>,
    assets: &Vec<(u64, Image)>,
    processed_textures: &mut ProcessedTextures,
) -> (reports: Vec<(u64, EncodeError)>)
    requires
        old(processed_textures)@.wf(),
    ensures
        final(processed_textures)@.wf(),
        final(processed_textures)@ == ({
            let s1 = TexStoreView {
                ids: old(processed_textures)@.ids,
                images: old(processed_textures)@.images,
                changed: old(processed_textures)@.changed || events@.len() > 0,
            };
            tex_upsert_pass(
                tex_remove_pass(s1, removal_ids(events@)),
                assets@,
                upsert_ids(events@),
            )
        }),
        reports@ == tex_upsert_reports(assets@, upsert_ids(events@)),
{
    let mut remove: Vec<u64> = Vec::new();
    let mut extract: Vec<u64> = Vec::new();

    let mut i: usize = 0;
    while i < events.len()
        invariant
            i <= events@.len(),
            remove@ == removal_ids(events@.take(i as int)),
            extract@ == upsert_ids(events@.take(i as int)),
            processed_textures@ == (TexStoreView {
                ids: old(processed_textures)@.ids,
                images: old(processed_textures)@.images,
                changed: old(processed_textures)@.changed || i > 0,
            }),
        decreases events@.len() - i,
    {
        proof {
            assert(events@.take(i + 1 as int).drop_last() =~= events@.take(i as int));
            assert(events@.take(i + 1 as int).last() == events@[i as int]);
        }
        match events[i] {
            AssetEvent::Added { id } => extract.push(id),
            AssetEvent::Modified { id } => extract.push(id),
            AssetEvent::LoadedWithDependencies { id } => extract.push(id),
            AssetEvent::Removed { id } => remove.push(id),
            AssetEvent::Unused { id } => remove.push(id),
        }
        processed_textures.changed = true;
        proof {
            assert(remove@ =~= removal_ids(events@.take(i + 1 as int)));
            assert(extract@ =~= upsert_ids(events@.take(i + 1 as int)));
        }
        i = i + 1;
    }
    proof {
        assert(events@.take(events@.len() as int) =~= events@);
    }

    let ghost s1 = processed_textures@;
    let mut j: usize = 0;
    while j < remove.len()
        invariant
            j <= remove@.len(),
            processed_textures@ == tex_remove_pass(s1, remove@.take(j as int)),
            processed_textures@.wf(),
        decreases remove@.len() - j,
    {
        proof {
            assert(remove@.take(j + 1 as int).drop_last() =~= remove@.take(j as int));
            assert(remove@.take(j + 1 as int).last() == remove@[j as int]);
        }
        let id = remove[j];
        processed_textures.remove_texture(id);
        j = j + 1;
    }
    proof {
        assert(remove@.take(remove@.len() as int) =~= remove@);
    }

    let ghost s2 = processed_textures@;
    let mut reports: Vec<(u64, EncodeError)> = Vec::new();
    let mut j: usize = 0;
    while j < extract.len()
        invariant
            j <= extract@.len(),
            processed_textures@ == tex_upsert_pass(s2, assets@, extract@.take(j as int)),
            processed_textures@.wf(),
            reports@ == tex_upsert_reports(assets@, extract@.take(j as int)),
        decreases extract@.len() - j,
    {
        proof {
            assert(extract@.take(j + 1 as int).drop_last() =~= extract@.take(j as int));
            assert(extract@.take(j + 1 as int).last() == extract@[j as int]);
        }
        let id = extract[j];
        match find_image_source(assets, id) {
            None => {
                reports.push((id, EncodeError::MissingSource));
                proof {
                    assert(reports@ =~= tex_upsert_reports(assets@, extract@.take(j + 1 as int)));
                }
            },
            Some(img) => {
                let bpt: u64 = match img.format {
                    TextureFormat::Rgba8UnormSrgb => 4,
                    TextureFormat::Rgba16Float => 8,
                    TextureFormat::Rgb9e5Ufloat => 4,
                    TextureFormat::R8Unorm => 1,
                    TextureFormat::Rg8Unorm => 2,
                    TextureFormat::Unrecognized => 0,
                };
                if bpt == 0 {
                    reports.push((id, EncodeError::UnsupportedFormat));
                    proof {
                        assert(reports@ =~= tex_upsert_reports(
                            assets@,
                            extract@.take(j + 1 as int),
                        ));
                    }
                } else {
                    proof {
                        assert((img.width as u128) * (img.height as u128) < 0x1_0000_0000
                            * 0x1_0000_0000 && (img.width as u128) * (img.height as u128) * (
                        bpt as u128) < 0x1_0000_0000 * 0x1_0000_0000 * 9 && (img.width as u128) * (
                        img.height as u128) * (bpt as u128) == img@.width * img@.height
                            * bytes_per_texel(img@.format))
                            by (nonlinear_arith)
                            requires
                                bpt == bytes_per_texel(img@.format),
                                0 < bpt <= 8,
                                img@.width == img.width as u128 as int,
                                img@.height == img.height as u128 as int,
                                (img.width as u128) < 0x1_0000_0000,
                                (img.height as u128) < 0x1_0000_0000,
                        ;
                    }
                    let expected: u128 = (img.width as u128) * (img.height as u128) * (bpt as u128);
                    if img.data.len() as u128 != expected {
                        reports.push((id, EncodeError::SizeMismatch));
                        proof {
                            assert(reports@ =~= tex_upsert_reports(
                                assets@,
                                extract@.take(j + 1 as int),
                            ));
                        }
                    } else {
                        let owned = Image {
                            width: img.width,
                            height: img.height,
                            format: img.format,
                            data: clone_bytes(&img.data),
                        };
                        proof {
                            assert(owned@ == img@);
                        }
                        processed_textures.upsert_texture(id, owned);
                        proof {
                            assert(reports@ =~= tex_upsert_reports(
                                assets@,
                                extract@.take(j + 1 as int),
                            ));
                        }
                    }
                }
            },
        }
        j = j + 1;
    }
    proof {
        assert(extract@.take(extract@.len() as int) =~= extract@);
    }
    reports
}

/// Samples the whole staged set normalizes to.
pub open spec fn total_samples(imgs: Seq<ImageView>) -> int
    decreases imgs.len(),
{
    if imgs.len() == 0 {
        0
    } else {
        total_samples(imgs.drop_last()) + sample_count(imgs.last())
    }
}

/// The pool offset of texture `i`: the samples of the textures before it.
pub open spec fn tex_offset(imgs: Seq<ImageView>, i: int) -> int {
    total_samples(imgs.take(i))
}

/// The metadata record of texture `i`.
pub open spec fn spec_texture_record(imgs: Seq<ImageView>, i: int) -> Texture {
    Texture {
        width: imgs[i].width,
        height: imgs[i].height,
        offset: tex_offset(imgs, i) as u32,
        format: channel_count(imgs[i].format) as u32,
    }
}

/// A shorter prefix of the staged set contributes no more samples than a
/// longer one, and one texture more than a prefix contributes at least its
/// own samples more.
proof fn lemma_samples_split(imgs: Seq<ImageView>, a: int, b: int)
    requires
        0 <= a <= b <= imgs.len(),
        forall|k: int| 0 <= k < imgs.len() ==> sample_count(#[trigger] imgs[k]) >= 0,
    ensures
        total_samples(imgs.take(a)) >= 0,
        total_samples(imgs.take(a)) <= total_samples(imgs.take(b)),
        a < b ==> total_samples(imgs.take(a)) + sample_count(imgs[a]) <= total_samples(
            imgs.take(b),
        ),
        a < b ==> total_samples(imgs.take(a + 1)) == total_samples(imgs.take(a)) + sample_count(
            imgs[a],
        ),
    decreases b - a,
{
    lemma_samples_nonneg(imgs.take(a));
    if a < b {
        assert(imgs.take(a + 1).drop_last() =~= imgs.take(a));
        assert(imgs.take(a + 1).last() == imgs[a]);
        lemma_samples_split(imgs, a + 1, b);
    }
}

/// A set of images contributes a nonnegative sample count.
proof fn lemma_samples_nonneg(imgs: Seq<ImageView>)
    ensures
        total_samples(imgs) >= 0,
    decreases imgs.len(),
{
    if imgs.len() > 0 {
        lemma_samples_nonneg(imgs.drop_last());
    }
}

/// Re-normalizes the whole sample pool from the staged textures when
/// anything changed since the last pass, and reports whether it did. The
/// published identity table becomes a copy of the store's table; texture
/// `i`'s record points at the pool region where its samples sit, each
/// sample decoding its source bytes; the pass marks the two groups dirty
/// and clears the store's changed flag. Without a change nothing moves.
pub fn prepare_textures(
    processed_textures: &mut ProcessedTextures,
    raytrace_meta: &mut crate::data::RayTraceMeta,
) -> (wrote: bool)
    requires
        old(processed_textures)@.wf(),
        total_samples(old(processed_textures)@.images) <= 0xFFFF_FFFF,
    ensures
        final(processed_textures)@.ids == old(processed_textures)@.ids,
        final(processed_textures)@.images == old(processed_textures)@.images,
        final(processed_textures)@.wf(),
        !final(processed_textures)@.changed,
        wrote == old(processed_textures)@.changed,
        !old(processed_textures)@.changed ==> *final(raytrace_meta) == *old(raytrace_meta)
            && final(processed_textures)@ == old(processed_textures)@,
        old(processed_textures)@.changed ==> ({
            let imgs = old(processed_textures)@.images;
            let meta = *final(raytrace_meta);
            &&& meta.handle_to_texture@ == old(processed_textures)@.ids
            &&& meta.textures@.len() == imgs.len()
            &&& forall|i: int| 0 <= i < imgs.len() ==> meta.textures@[i] == spec_texture_record(imgs, i)
            &&& meta.texture_data.data@.len() == total_samples(imgs)
            &&& forall|i: int, j: int|
                0 <= i < imgs.len() && 0 <= j < sample_count(imgs[i]) ==> #[trigger] sample_decodes(
                    imgs[i],
                    j,
                    meta.texture_data.data@[tex_offset(imgs, i) + j],
                )
            &&& meta.dirty == (crate::data::DirtyFlags {
                textures: true,
                texture_data: true,
                ..old(raytrace_meta).dirty
            })
            &&& meta.objects@ == old(raytrace_meta).objects@
            &&& meta.emissives@ == old(raytrace_meta).emissives@
            &&& meta.meshes@ == old(raytrace_meta).meshes@
            &&& meta.indices@ == old(raytrace_meta).indices@
            &&& meta.vertices@ == old(raytrace_meta).vertices@
            &&& meta.handle_to_material@ == old(raytrace_meta).handle_to_material@
            &&& meta.materials@ == old(raytrace_meta).materials@
        }),
{
    if !processed_textures.changed {
        return false;
    }
    processed_textures.changed = false;

    let ghost imgs = old(processed_textures)@.images;
    let n = processed_textures.images.len();
    let mut textures: Vec<Texture> = Vec::new();
    let mut texture_data = TextureData::new();

    proof {
        assert forall|k: int| 0 <= k < imgs.len() implies sample_count(#[trigger] imgs[k])
            >= 0 by {}
    }

    let mut i: usize = 0;
    while i < n
        invariant
            processed_textures@.images == imgs,
            processed_textures@.wf(),
            n == imgs.len(),
            total_samples(imgs) <= 0xFFFF_FFFF,
            forall|k: int| 0 <= k < imgs.len() ==> sample_count(#[trigger] imgs[k]) >= 0,
            i <= n,
            textures@.len() == i,
            forall|k: int| 0 <= k < i ==> textures@[k] == spec_texture_record(imgs, k),
            texture_data.data@.len() == total_samples(imgs.take(i as int)),
            forall|k: int, j: int|
                0 <= k < i && 0 <= j < sample_count(imgs[k]) ==> #[trigger] sample_decodes(
                    imgs[k],
                    j,
                    texture_data.data@[tex_offset(imgs, k) + j],
                ),
        decreases n - i,
    {
        proof {
            lemma_samples_split(imgs, i as int, n as int);
            assert(imgs.take(n as int) =~= imgs);
            assert(imgs[i as int] == processed_textures.images@[i as int]@);
        }
        let ghost pool_before = texture_data.data@;
        let r = texture_data.append_texture(&processed_textures.images[i]);
        match r {
            Ok(tex) => {
                textures.push(tex);
                proof {
                    assert(textures@[i as int] == spec_texture_record(imgs, i as int));
                    assert forall|k: int, j: int|
                        0 <= k < i + 1 && 0 <= j < sample_count(imgs[k]) implies
                        #[trigger] sample_decodes(
                        imgs[k],
                        j,
                        texture_data.data@[tex_offset(imgs, k) + j],
                    ) by {
                        if k < i {
                            lemma_samples_split(imgs, k, i as int);
                            assert(tex_offset(imgs, k) + j < pool_before.len());
                            assert(texture_data.data@[tex_offset(imgs, k) + j]
                                == texture_data.data@.take(pool_before.len() as int)[tex_offset(
                                imgs,
                                k,
                            ) + j]);
                            assert(sample_decodes(
                                imgs[k],
                                j,
                                pool_before[tex_offset(imgs, k) + j],
                            ));
                        } else {
                            assert(sample_decodes(
                                imgs[k],
                                j,
                                texture_data.data@[pool_before.len() + j],
                            ));
                        }
                    }
                }
            },
            Err(_) => {
                proof {
                    assert(image_error(imgs[i as int]) is None);
                    assert(false);
                }
            },
        }
        i = i + 1;
    }
    proof {
        assert(imgs.take(n as int) =~= imgs);
    }

    raytrace_meta.handle_to_texture = processed_textures.asset_to_index.copied();
    raytrace_meta.textures = textures;
    raytrace_meta.texture_data = texture_data;
    raytrace_meta.dirty.textures = true;
    raytrace_meta.dirty.texture_data = true;
    true
}

/// A byte buffer, duplicated.
fn clone_bytes(d: &Vec<u8>) -> (r: Vec<u8>)
    ensures
        r@ == d@,
{
    let mut out: Vec<u8> = Vec::new();
    let mut i: usize = 0;
    while i < d.len()
        invariant
            i <= d@.len(),
            out@ == d@.take(i as int),
        decreases d@.len() - i,
    {
        out.push(d[i]);
        proof {
            assert(out@ =~= d@.take(i + 1 as int));
        }
        i = i + 1;
    }
    proof {
        assert(d@.take(d@.len() as int) =~= d@);
    }
    out
}

impl TextureData {
    /// An empty sample pool.
    pub fn new() -> (t: TextureData)
        ensures
            t.data@ =~= Seq::<u32>::empty(),
    {
        TextureData { data: Vec::new() }
    }

    /// Normalizes one image onto the end of the shared pool and returns
    /// its metadata record: size, the offset where its samples begin, and
    /// its channel count. An image with an unrecognized encoding or a
    /// mismatched payload is rejected with that error and the pool is left
    /// untouched. Every appended sample decodes its source bytes, per
    /// [`sample_decodes`].
    pub fn append_texture(&mut self, image: &Image) -> (r: Result<Texture, EncodeError>)
        requires
            old(self).data@.len() + sample_count(image@) <= 0xFFFF_FFFF,
        ensures
            match r {
                Ok(tex) => {
                    &&& image_error(image@) is None
                    &&& tex == (Texture {
                        width: image.width,
                        height: image.height,
                        offset: old(self).data@.len() as u32,
                        format: channel_count(image@.format) as u32,
                    })
                    &&& final(self).data@.len() == old(self).data@.len() + sample_count(image@)
                    &&& final(self).data@.take(old(self).data@.len() as int) == old(self).data@
                    &&& forall|j: int|
                        0 <= j < sample_count(image@) ==> #[trigger] sample_decodes(
                            image@,
                            j,
                            final(self).data@[old(self).data@.len() + j],
                        )
                },
                Err(e) => {
                    &&& image_error(image@) == Some(e)
                    &&& final(self).data@ == old(self).data@
                },
            },
    {
        let bpt: u128 = match image.format {
            TextureFormat::Rgba8UnormSrgb => 4,
            TextureFormat::Rgba16Float => 8,
            TextureFormat::Rgb9e5Ufloat => 4,
            TextureFormat::R8Unorm => 1,
            TextureFormat::Rg8Unorm => 2,
            TextureFormat::Unrecognized => {
                return Err(EncodeError::UnsupportedFormat);
            },
        };
        proof {
            assert((image.width as u128) * (image.height as u128) * bpt < 0x1_0000_0000
                * 0x1_0000_0000 * 9 && (image.width as u128) * (image.height as u128) * bpt
                == image@.width * image@.height * bytes_per_texel(image@.format))
                by (nonlinear_arith)
                requires
                    bpt == bytes_per_texel(image@.format),
                    0 <= bpt <= 8,
                    image@.width == image.width as u128 as int,
                    image@.height == image.height as u128 as int,
                    (image.width as u128) < 0x1_0000_0000,
                    (image.height as u128) < 0x1_0000_0000,
            ;
        }
        let expected: u128 = (image.width as u128) * (image.height as u128) * bpt;
        if image.data.len() as u128 != expected {
            return Err(EncodeError::SizeMismatch);
        }

        let offset = self.data.len() as u32;
        let n = image.data.len();
        let mut samples: Vec<u32> = Vec::new();
        match image.format {
            TextureFormat::Rgba8UnormSrgb | TextureFormat::R8Unorm | TextureFormat::Rg8Unorm => {
                let mut j: usize = 0;
                while j < n
                    invariant
                        n == image@.data.len(),
                        sample_count(image@) == n,
                        j <= n,
                        samples@.len() == j,
                        forall|i: int|
                            0 <= i < j ==> #[trigger] sample_decodes(image@, i, samples@[i]),
                        image@.format == TextureFormat::Rgba8UnormSrgb || image@.format
                            == TextureFormat::R8Unorm || image@.format == TextureFormat::Rg8Unorm,
                    decreases n - j,
                {
                    let s = unorm8_to_bits(image.data[j]);
                    samples.push(s);
                    j = j + 1;
                }
            },
            TextureFormat::Rgba16Float => {
                let pairs = n / 2;
                let mut j: usize = 0;
                while j < pairs
                    invariant
                        n == image@.data.len(),
                        pairs == n as int / 2,
                        sample_count(image@) == pairs,
                        j <= pairs,
                        samples@.len() == j,
                        forall|i: int|
                            0 <= i < j ==> #[trigger] sample_decodes(image@, i, samples@[i]),
                        image@.format == TextureFormat::Rgba16Float,
                    decreases pairs - j,
                {
                    let lo = image.data[2 * j] as u16;
                    let hi = image.data[2 * j + 1] as u16;
                    let s = half_to_bits(lo + 0x100 * hi);
                    samples.push(s);
                    proof {
                        assert(lo + 0x100 * hi == half_at(image@.data, j as int));
                    }
                    j = j + 1;
                }
            },
            TextureFormat::Rgb9e5Ufloat => {
                let texels = n / 4;
                let mut t: usize = 0;
                while t < texels
                    invariant
                        n == image@.data.len(),
                        texels == n as int / 4,
                        sample_count(image@) == 3 * texels,
                        t <= texels,
                        samples@.len() == 3 * t,
                        forall|i: int|
                            0 <= i < 3 * t ==> #[trigger] sample_decodes(image@, i, samples@[i]),
                        image@.format == TextureFormat::Rgb9e5Ufloat,
                    decreases texels - t,
                {
                    let b0 = image.data[4 * t] as u32;
                    let b1 = image.data[4 * t + 1] as u32;
                    let b2 = image.data[4 * t + 2] as u32;
                    let b3 = image.data[4 * t + 3] as u32;
                    let v = b0 + 0x100 * b1 + 0x1_0000 * b2 + 0x100_0000 * b3;
                    let rm = v % 0x200;
                    let gm = (v / 0x200) % 0x200;
                    let bm = (v / 0x4_0000) % 0x200;
                    let e5 = v / 0x800_0000;
                    let sr = ufloat9e5_bits(rm, e5);
                    let sg = ufloat9e5_bits(gm, e5);
                    let sb = ufloat9e5_bits(bm, e5);
                    samples.push(sr);
                    samples.push(sg);
                    samples.push(sb);
                    proof {
                        assert(v == texel32_at(image@.data, t as int));
                        lemma_fundamental_div_mod_converse_div(3 * t as int, 3, t as int, 0);
                        lemma_fundamental_div_mod_converse_mod(3 * t as int, 3, t as int, 0);
                        lemma_fundamental_div_mod_converse_div(3 * t + 1, 3, t as int, 1);
                        lemma_fundamental_div_mod_converse_mod(3 * t + 1, 3, t as int, 1);
                        lemma_fundamental_div_mod_converse_div(3 * t + 2, 3, t as int, 2);
                        lemma_fundamental_div_mod_converse_mod(3 * t + 2, 3, t as int, 2);
                        assert(sample_decodes(image@, 3 * t as int, sr));
                        assert(sample_decodes(image@, 3 * t + 1, sg));
                        assert(sample_decodes(image@, 3 * t + 2, sb));
                        assert(forall|i: int|
                            0 <= i < 3 * (t + 1) ==> #[trigger] sample_decodes(
                                image@,
                                i,
                                samples@[i],
                            ));
                    }
                    t = t + 1;
                }
            },
            TextureFormat::Unrecognized => {
                proof {
                    assert(false);
                }
            },
        }
        let ghost pool0 = self.data@;
        self.data.append(&mut samples);
        proof {
            assert(self.data@.take(pool0.len() as int) =~= pool0);
        }
        Ok(
            Texture {
                width: image.width,
                height: image.height,
                offset,
                format: match image.format {
                    TextureFormat::Rgba8UnormSrgb => 4,
                    TextureFormat::Rgba16Float => 4,
                    TextureFormat::Rgb9e5Ufloat => 3,
                    TextureFormat::R8Unorm => 1,
                    TextureFormat::Rg8Unorm => 2,
                    TextureFormat::Unrecognized => 0,
                },
            },
        )
    }
}

} // verus!

//! Buffer publishing: which GPU-resident arrays to upload this frame.
//!
//! Every CPU-side array group carries a dirty flag. The publisher hands the
//! host shell exactly the dirty groups, in a fixed order, and clears their
//! flags, so an unchanged group is never re-uploaded.

use vstd::prelude::*;

use crate::data::{DirtyFlags, RayTraceMeta};

verus! {

/// One uploadable array group.
#[derive(Clone, Copy, PartialEq, Eq, Structural, Debug)]
pub enum BufferGroup {
    Objects,
    Emissives,
    Meshes,
    Indices,
    Vertices,
    Materials,
    Textures,
    TextureDataPool,
}

/// The groups a flag set names, in publish order.
pub open spec fn dirty_groups(d: DirtyFlags) -> Seq<BufferGroup> {
    (if d.objects {
        seq![BufferGroup::Objects]
    } else {
        Seq::empty()
    }) + (if d.emissives {
        seq![BufferGroup::Emissives]
    } else {
        Seq::empty()
    }) + (if d.meshes {
        seq![BufferGroup::Meshes]
    } else {
        Seq::empty()
    }) + (if d.indices {
        seq![BufferGroup::Indices]
    } else {
        Seq::empty()
    }) + (if d.vertices {
        seq![BufferGroup::Vertices]
    } else {
        Seq::empty()
    }) + (if d.materials {
        seq![BufferGroup::Materials]
    } else {
        Seq::empty()
    }) + (if d.textures {
        seq![BufferGroup::Textures]
    } else {
        Seq::empty()
    }) + (if d.texture_data {
        seq![BufferGroup::TextureDataPool]
    } else {
        Seq::empty()
    })
}

/// A flag set with nothing pending.
pub open spec fn all_clean() -> DirtyFlags {
    DirtyFlags {
        objects: false,
        emissives: false,
        meshes: false,
        indices: false,
        vertices: false,
        materials: false,
        textures: false,
        texture_data: false,
    }
}

/// Returns exactly the dirty groups, in publish order, and clears their
/// flags; the arrays themselves do not move. The host shell uploads the
/// returned groups and nothing else.
#[verifier::rlimit(50)]
pub fn take_dirty_groups(raytrace_meta: &mut RayTraceMeta) -> (groups: Vec<BufferGroup>)
    ensures
        groups@ == dirty_groups(old(raytrace_meta).dirty),
        final(raytrace_meta).dirty == all_clean(),
        final(raytrace_meta).objects@ == old(raytrace_meta).objects@,
        final(raytrace_meta).emissives@ == old(raytrace_meta).emissives@,
        final(raytrace_meta).meshes@ == old(raytrace_meta).meshes@,
        final(raytrace_meta).indices@ == old(raytrace_meta).indices@,
        final(raytrace_meta).vertices@ == old(raytrace_meta).vertices@,
        final(raytrace_meta).handle_to_material@ == old(raytrace_meta).handle_to_material@,
        final(raytrace_meta).handle_to_texture@ == old(raytrace_meta).handle_to_texture@,
        final(raytrace_meta).materials@ == old(raytrace_meta).materials@,
        final(raytrace_meta).textures@ == old(raytrace_meta).textures@,
        final(raytrace_meta).texture_data.data@ == old(raytrace_meta).texture_data.data@,
{
    let ghost d = old(raytrace_meta).dirty;
    let ghost g1 = if d.objects {
        seq![BufferGroup::Objects]
    } else {
        Seq::<BufferGroup>::empty()
    };
    let ghost g2 = if d.emissives {
        seq![BufferGroup::Emissives]
    } else {
        Seq::<BufferGroup>::empty()
    };
    let ghost g3 = if d.meshes {
        seq![BufferGroup::Meshes]
    } else {
        Seq::<BufferGroup>::empty()
    };
    let ghost g4 = if d.indices {
        seq![BufferGroup::Indices]
    } else {
        Seq::<BufferGroup>::empty()
    };
    let ghost g5 = if d.vertices {
        seq![BufferGroup::Vertices]
    } else {
        Seq::<BufferGroup>::empty()
    };
    let ghost g6 = if d.materials {
        seq![BufferGroup::Materials]
    } else {
        Seq::<BufferGroup>::empty()
    };
    let ghost g7 = if d.textures {
        seq![BufferGroup::Textures]
    } else {
        Seq::<BufferGroup>::empty()
    };
    let ghost g8 = if d.texture_data {
        seq![BufferGroup::TextureDataPool]
    } else {
        Seq::<BufferGroup>::empty()
    };
    let mut groups: Vec<BufferGroup> = Vec::new();
    if raytrace_meta.dirty.objects {
        groups.push(BufferGroup::Objects);
    }
    proof {
        assert(groups@ =~= g1);
    }
    if raytrace_meta.dirty.emissives {
        groups.push(BufferGroup::Emissives);
    }
    proof {
        assert(groups@ =~= g1 + g2);
    }
    if raytrace_meta.dirty.meshes {
        groups.push(BufferGroup::Meshes);
    }
    proof {
        assert(groups@ =~= g1 + g2 + g3);
    }
    if raytrace_meta.dirty.indices {
        groups.push(BufferGroup::Indices);
    }
    proof {
        assert(groups@ =~= g1 + g2 + g3 + g4);
    }
    if raytrace_meta.dirty.vertices {
        groups.push(BufferGroup::Vertices);
    }
    proof {
        assert(groups@ =~= g1 + g2 + g3 + g4 + g5);
    }
    if raytrace_meta.dirty.materials {
        groups.push(BufferGroup::Materials);
    }
    proof {
        assert(groups@ =~= g1 + g2 + g3 + g4 + g5 + g6);
    }
    if raytrace_meta.dirty.textures {
        groups.push(BufferGroup::Textures);
    }
    proof {
        assert(groups@ =~= g1 + g2 + g3 + g4 + g5 + g6 + g7);
    }
    if raytrace_meta.dirty.texture_data {
        groups.push(BufferGroup::TextureDataPool);
    }
    proof {
        assert(groups@ =~= g1 + g2 + g3 + g4 + g5 + g6 + g7 + g8);
        assert(groups@ =~= dirty_groups(d));
    }
    raytrace_meta.dirty = DirtyFlags {
        objects: false,
        emissives: false,
        meshes: false,
        indices: false,
        vertices: false,
        materials: false,
        textures: false,
        texture_data: false,
    };
    groups
}

} // verus!

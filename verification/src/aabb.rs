//! Axis-aligned bounding boxes over binary32 bit patterns.
//!
//! A box is a componentwise pair of corner points. Folding points or other
//! boxes into a box uses the total order of [`crate::binary32`]; the fold
//! starts from the empty box, whose corners are positive and negative
//! infinity, so that the first point folded in becomes the box itself.

use vstd::prelude::*;

use crate::binary32::{
    max_bits, min_bits, spec_max_bits, spec_min_bits, NEG_INF_BITS, POS_INF_BITS,
};

verus! {

/// A point or direction: three binary32 bit patterns.
#[derive(Clone, Copy, PartialEq, Eq, Structural, Debug)]
pub struct Vec3Bits {
    pub x: u32,
    pub y: u32,
    pub z: u32,
}

/// A texture coordinate: two binary32 bit patterns.
#[derive(Clone, Copy, PartialEq, Eq, Structural, Debug)]
pub struct Vec2Bits {
    pub x: u32,
    pub y: u32,
}

/// Componentwise minimum of two points under the total order.
pub open spec fn spec_vec3_min(a: Vec3Bits, b: Vec3Bits) -> Vec3Bits {
    Vec3Bits {
        x: spec_min_bits(a.x, b.x),
        y: spec_min_bits(a.y, b.y),
        z: spec_min_bits(a.z, b.z),
    }
}

/// Componentwise maximum of two points under the total order.
pub open spec fn spec_vec3_max(a: Vec3Bits, b: Vec3Bits) -> Vec3Bits {
    Vec3Bits {
        x: spec_max_bits(a.x, b.x),
        y: spec_max_bits(a.y, b.y),
        z: spec_max_bits(a.z, b.z),
    }
}

/// Componentwise minimum, computed.
pub fn vec3_min(a: Vec3Bits, b: Vec3Bits) -> (r: Vec3Bits)
    ensures
        r == spec_vec3_min(a, b),
{
    Vec3Bits { x: min_bits(a.x, b.x), y: min_bits(a.y, b.y), z: min_bits(a.z, b.z) }
}

/// Componentwise maximum, computed.
pub fn vec3_max(a: Vec3Bits, b: Vec3Bits) -> (r: Vec3Bits)
    ensures
        r == spec_vec3_max(a, b),
{
    Vec3Bits { x: max_bits(a.x, b.x), y: max_bits(a.y, b.y), z: max_bits(a.z, b.z) }
}

/// An axis-aligned bounding box: componentwise minimum and maximum corners.
#[derive(Clone, Copy, PartialEq, Eq, Structural, Debug)]
pub struct Aabb {
    pub min: Vec3Bits,
    pub max: Vec3Bits,
}

/// The componentwise union of two boxes: the smallest box enclosing both.
pub open spec fn spec_union(a: Aabb, b: Aabb) -> Aabb {
    Aabb { min: spec_vec3_min(a.min, b.min), max: spec_vec3_max(a.max, b.max) }
}

/// The empty box: the identity of [`spec_union`] on boxes built by folds
/// that start from it.
pub open spec fn spec_empty_box() -> Aabb {
    Aabb {
        min: Vec3Bits { x: POS_INF_BITS, y: POS_INF_BITS, z: POS_INF_BITS },
        max: Vec3Bits { x: NEG_INF_BITS, y: NEG_INF_BITS, z: NEG_INF_BITS },
    }
}

/// The degenerate box holding one point.
pub open spec fn spec_point_box(p: Vec3Bits) -> Aabb {
    Aabb { min: p, max: p }
}

impl Aabb {
    /// The empty box, computed.
    pub fn empty() -> (r: Aabb)
        ensures
            r == spec_empty_box(),
    {
        Aabb {
            min: Vec3Bits { x: POS_INF_BITS, y: POS_INF_BITS, z: POS_INF_BITS },
            max: Vec3Bits { x: NEG_INF_BITS, y: NEG_INF_BITS, z: NEG_INF_BITS },
        }
    }

    /// The union with another box, computed.
    pub fn union(&self, other: &Aabb) -> (r: Aabb)
        ensures
            r == spec_union(*self, *other),
    {
        Aabb { min: vec3_min(self.min, other.min), max: vec3_max(self.max, other.max) }
    }

    /// The box grown to include one point.
    pub fn grow(&self, p: Vec3Bits) -> (r: Aabb)
        ensures
            r == spec_union(*self, spec_point_box(p)),
    {
        Aabb { min: vec3_min(self.min, p), max: vec3_max(self.max, p) }
    }
}

/// The fold of a point sequence, in order, into the empty box: the
/// componentwise bound of all the points under the total order.
pub open spec fn fold_points(ps: Seq<Vec3Bits>) -> Aabb
    decreases ps.len(),
{
    if ps.len() == 0 {
        spec_empty_box()
    } else {
        spec_union(fold_points(ps.drop_last()), spec_point_box(ps.last()))
    }
}

/// The bound of a triangle given its three corner points: the fold of the
/// corners, in order, into the empty box.
pub open spec fn spec_triangle_box(a: Vec3Bits, b: Vec3Bits, c: Vec3Bits) -> Aabb {
    spec_union(
        spec_union(spec_union(spec_empty_box(), spec_point_box(a)), spec_point_box(b)),
        spec_point_box(c),
    )
}

/// The bound of a triangle, computed.
pub fn triangle_box(a: Vec3Bits, b: Vec3Bits, c: Vec3Bits) -> (r: Aabb)
    ensures
        r == spec_triangle_box(a, b, c),
{
    Aabb::empty().grow(a).grow(b).grow(c)
}

} // verus!

//! The scene object model: one closed sum of everything a ray can meet,
//! with its bounding box and its intersection rule. Every object tests the
//! slab of its own bound first, which is what lets the hierarchy prune
//! subtrees soundly.

use vstd::prelude::*;
use vstd::multiset::Multiset;

use std::sync::Arc;

use crate::fx::sabs;
use crate::fx::tdiv;
use crate::fx::Fx;
use crate::fx::COORD_MAX;
use crate::fx::ONE;
use crate::fx::SCALE;
use crate::geometry::rectangle_hit_spec;
use crate::geometry::rectangle_wf;
use crate::geometry::sphere_hit_spec;
use crate::geometry::sphere_wf;
use crate::geometry::Rectangle;
use crate::geometry::Sphere;
use crate::geometry::TransformedGeometry;
use crate::mat4::mat_wf;
use crate::mat4::Mat4;
use crate::mat4::Mat4Cached;
use crate::material::material_wf;
use crate::material::Material;
use crate::optimize::box_bounded;
use crate::optimize::box_inside;
use crate::optimize::merged_spec;
use crate::optimize::slab_hit;
use crate::optimize::slab_pass;
use crate::optimize::AxisAlignedBoundingBox;
use crate::optimize::BoundingVolumeHierarchyNode;
use crate::ray::ray_bounded;
use crate::ray::rec_wf;
use crate::ray::HitRecord;
use crate::ray::Ray;
use crate::rng::lcg_next;
use crate::rng::Lcg;
use crate::sprite::Sprite;
use crate::vec3::b3;
use crate::vec3::dot3;
use crate::vec3::unit3;
use crate::vec3::Vec3;
use crate::vec4::xform_comp;
use crate::vec4::Vec4;
use crate::volume::free_path_spec;
use crate::volume::neg_ln_unit;
use crate::volume::ConstantMedium;

verus! {

/// Anything a ray can meet: a primitive shape, a placed geometry, a shaded
/// sprite, a fog volume, or a node of the bounding hierarchy.
#[derive(Debug)]
pub enum Object {
    Ball(Sphere),
    Quad(Rectangle),
    Placed(TransformedGeometry),
    Figure(Sprite),
    Medium(ConstantMedium),
    Node(BoundingVolumeHierarchyNode),
}

/// The structural health of an object: shapes are in range, transforms are
/// consistently cached, fog is positive and built over a deterministic
/// boundary, and every hierarchy node's volume is the merge of its
/// children's bounds.
pub open spec fn object_wf(o: Object) -> bool
    decreases o,
{
    match o {
        Object::Ball(s) => sphere_wf(s),
        Object::Quad(r) => rectangle_wf(r),
        Object::Placed(t) => t.transform.cached_wf() && object_wf(*t.geometry),
        Object::Figure(sp) => {
            &&& sp.transform.cached_wf()
            &&& match sp.geometry {
                Some(g) => object_wf(*g),
                None => true,
            }
            &&& match sp.material {
                Some(m) => material_wf(*m),
                None => true,
            }
        },
        Object::Medium(cm) => {
            &&& object_wf(*cm.boundary)
            &&& deterministic_object(*cm.boundary)
            &&& 1 <= cm.density <= COORD_MAX
        },
        Object::Node(n) => {
            &&& n.left is Some
            &&& match n.left {
                Some(l) => object_wf(*l) && object_bound_spec(*l) is Some,
                None => true,
            }
            &&& match n.right {
                Some(r) => object_wf(*r) && object_bound_spec(*r) is Some,
                None => true,
            }
            &&& n.volume == node_volume_spec(n)
            &&& box_bounded(n.volume)
        },
    }
}

/// No fog anywhere below: intersection consumes no randomness.
pub open spec fn deterministic_object(o: Object) -> bool
    decreases o,
{
    match o {
        Object::Ball(_) => true,
        Object::Quad(_) => true,
        Object::Placed(t) => deterministic_object(*t.geometry),
        Object::Figure(sp) => match sp.geometry {
            Some(g) => deterministic_object(*g),
            None => true,
        },
        Object::Medium(_) => false,
        Object::Node(n) => (match n.left {
            Some(l) => deterministic_object(*l),
            None => true,
        }) && (match n.right {
            Some(r) => deterministic_object(*r),
            None => true,
        }),
    }
}

/// The merge of the bounds of a node's children.
pub open spec fn node_volume_spec(n: BoundingVolumeHierarchyNode) -> AxisAlignedBoundingBox {
    let lb = match n.left {
        Some(l) => object_bound_spec(*l),
        None => None,
    };
    let rb = match n.right {
        Some(r) => object_bound_spec(*r),
        None => None,
    };
    match (lb, rb) {
        (Some(a), Some(b)) => merged_spec(a, b),
        (Some(a), None) => a,
        (None, Some(b)) => b,
        (None, None) => zero_box(),
    }
}

/// The degenerate box at the origin.
pub open spec fn zero_box() -> AxisAlignedBoundingBox {
    AxisAlignedBoundingBox {
        min: Vec3 { x: 0, y: 0, z: 0 },
        max: Vec3 { x: 0, y: 0, z: 0 },
    }
}

pub open spec fn imin(a: int, b: int) -> int {
    if a <= b {
        a
    } else {
        b
    }
}

pub open spec fn imax(a: int, b: int) -> int {
    if a >= b {
        a
    } else {
        b
    }
}

/// Clamp a coordinate into the world range.
pub open spec fn clamp_c(v: int) -> Fx {
    if v < -COORD_MAX {
        (-COORD_MAX) as i64
    } else if v > COORD_MAX {
        COORD_MAX as i64
    } else {
        v as i64
    }
}

/// One coordinate of one transformed corner of a box.
pub open spec fn corner_comp(m: Mat4, x: Fx, y: Fx, z: Fx, row: int) -> int {
    xform_comp(Vec4 { x, y, z, w: ONE }, m, row)
}

/// One axis of the transformed bound: the extremes over the eight corners.
pub open spec fn xformed_axis_min_raw(b: AxisAlignedBoundingBox, m: Mat4, row: int) -> int {
    imin(
            imin(
                imin(corner_comp(m, b.min.x, b.min.y, b.min.z, row), corner_comp(m, b.max.x, b.min.y, b.min.z, row)),
                imin(corner_comp(m, b.min.x, b.max.y, b.min.z, row), corner_comp(m, b.min.x, b.min.y, b.max.z, row)),
            ),
            imin(
                imin(corner_comp(m, b.max.x, b.max.y, b.min.z, row), corner_comp(m, b.max.x, b.min.y, b.max.z, row)),
                imin(corner_comp(m, b.min.x, b.max.y, b.max.z, row), corner_comp(m, b.max.x, b.max.y, b.max.z, row)),
            ),
        )
}

pub open spec fn xformed_axis_max_raw(b: AxisAlignedBoundingBox, m: Mat4, row: int) -> int {
    imax(
            imax(
                imax(corner_comp(m, b.min.x, b.min.y, b.min.z, row), corner_comp(m, b.max.x, b.min.y, b.min.z, row)),
                imax(corner_comp(m, b.min.x, b.max.y, b.min.z, row), corner_comp(m, b.min.x, b.min.y, b.max.z, row)),
            ),
            imax(
                imax(corner_comp(m, b.max.x, b.max.y, b.min.z, row), corner_comp(m, b.max.x, b.min.y, b.max.z, row)),
                imax(corner_comp(m, b.min.x, b.max.y, b.max.z, row), corner_comp(m, b.max.x, b.max.y, b.max.z, row)),
            ),
        )
}

/// The clamped axis extremes.
pub open spec fn xformed_axis_min(b: AxisAlignedBoundingBox, m: Mat4, row: int) -> Fx {
    clamp_c(xformed_axis_min_raw(b, m, row))
}

pub open spec fn xformed_axis_max(b: AxisAlignedBoundingBox, m: Mat4, row: int) -> Fx {
    clamp_c(xformed_axis_max_raw(b, m, row))
}

/// The conservative bound of a transformed box: the eight corners pushed
/// through the transform, their extremes taken per axis.
pub open spec fn xformed_bound_spec(b: AxisAlignedBoundingBox, m: Mat4) -> AxisAlignedBoundingBox {
    AxisAlignedBoundingBox {
        min: Vec3 {
            x: xformed_axis_min(b, m, 0),
            y: xformed_axis_min(b, m, 1),
            z: xformed_axis_min(b, m, 2),
        },
        max: Vec3 {
            x: xformed_axis_max(b, m, 0),
            y: xformed_axis_max(b, m, 1),
            z: xformed_axis_max(b, m, 2),
        },
    }
}

/// The bound of an object, where it has one: an unplaced sprite has none,
/// and a degenerate placement collapses to a point.
pub open spec fn object_bound_spec(o: Object) -> Option<AxisAlignedBoundingBox>
    decreases o,
{
    match o {
        Object::Ball(s) => Some(
            AxisAlignedBoundingBox {
                min: Vec3 { x: (-s.radius) as i64, y: (-s.radius) as i64, z: (-s.radius) as i64 },
                max: Vec3 { x: s.radius, y: s.radius, z: s.radius },
            },
        ),
        Object::Quad(r) => Some(
            AxisAlignedBoundingBox {
                min: Vec3 { x: (-(r.width / 2)) as i64, y: (-(r.height / 2)) as i64, z: -1i64 },
                max: Vec3 { x: (r.width / 2) as i64, y: (r.height / 2) as i64, z: 1i64 },
            },
        ),
        Object::Placed(t) => if t.transform.cached_invertible() {
            match object_bound_spec(*t.geometry) {
                Some(b) => Some(xformed_bound_spec(b, t.transform.origin_spec())),
                None => None,
            }
        } else {
            Some(zero_box())
        },
        Object::Figure(sp) => match sp.geometry {
            None => None,
            Some(g) => if sp.transform.cached_invertible() {
                match object_bound_spec(*g) {
                    Some(b) => Some(xformed_bound_spec(b, sp.transform.origin_spec())),
                    None => None,
                }
            } else {
                Some(zero_box())
            },
        },
        Object::Medium(cm) => object_bound_spec(*cm.boundary),
        Object::Node(n) => Some(n.volume),
    }
}

/// Clamped coordinates are world-sized.
proof fn lemma_clamp_bounded(v: int)
    ensures
        sabs(clamp_c(v) as int) <= COORD_MAX as int,
{
}

/// A transformed bound is world-sized, being clamped axis by axis.
proof fn lemma_xformed_bound_bounded(b: AxisAlignedBoundingBox, m: Mat4)
    ensures
        box_bounded(xformed_bound_spec(b, m)),
{
    lemma_clamp_bounded(xformed_axis_min_raw(b, m, 0));
    lemma_clamp_bounded(xformed_axis_min_raw(b, m, 1));
    lemma_clamp_bounded(xformed_axis_min_raw(b, m, 2));
    lemma_clamp_bounded(xformed_axis_max_raw(b, m, 0));
    lemma_clamp_bounded(xformed_axis_max_raw(b, m, 1));
    lemma_clamp_bounded(xformed_axis_max_raw(b, m, 2));
}

/// A well-formed object's bound stays in the world range.
#[verifier::rlimit(100)]
pub proof fn lemma_bound_bounded(o: Object)
    requires
        object_wf(o),
    ensures
        object_bound_spec(o) matches Some(b) ==> box_bounded(b),
    decreases o,
{
    match o {
        Object::Ball(_) => {},
        Object::Quad(_) => {},
        Object::Placed(t) => {
            let sub: Object = *t.geometry;
            lemma_bound_bounded(sub);
            if t.transform.cached_invertible() {
                match object_bound_spec(sub) {
                    Some(b) => {
                        lemma_xformed_bound_bounded(b, t.transform.origin_spec());
                    },
                    None => {},
                }
            }
        },
        Object::Figure(sp) => {
            match sp.geometry {
                Some(g) => {
                    let sub: Object = *g;
                    lemma_bound_bounded(sub);
                    if sp.transform.cached_invertible() {
                        match object_bound_spec(sub) {
                            Some(b) => {
                                lemma_xformed_bound_bounded(b, sp.transform.origin_spec());
                            },
                            None => {},
                        }
                    }
                },
                None => {},
            }
        },
        Object::Medium(cm) => {
            let sub: Object = *cm.boundary;
            lemma_bound_bounded(sub);
        },
        Object::Node(_) => {},
    }
}


/// The bound of an object, executably.
pub fn object_bound(o: &Object) -> (r: Option<AxisAlignedBoundingBox>)
    requires
        object_wf(*o),
    ensures
        r == object_bound_spec(*o),
    decreases *o,
{
    match o {
        Object::Ball(s) => Some(
            AxisAlignedBoundingBox::new(
                Vec3::new(-s.radius, -s.radius, -s.radius),
                Vec3::new(s.radius, s.radius, s.radius),
            ),
        ),
        Object::Quad(re) => Some(
            AxisAlignedBoundingBox::new(
                Vec3::new(-(re.width / 2), -(re.height / 2), -1),
                Vec3::new(re.width / 2, re.height / 2, 1),
            ),
        ),
        Object::Placed(t) => {
            if t.transform.inversed().is_some() {
                match object_bound(&*t.geometry) {
                    Some(b) => {
                        proof {
                            let sub: Object = *t.geometry;
                            lemma_bound_bounded(sub);
                        }
                        Some(xformed_bound(&b, t.transform.origin()))
                    },
                    None => None,
                }
            } else {
                Some(AxisAlignedBoundingBox::new(Vec3::new(0, 0, 0), Vec3::new(0, 0, 0)))
            }
        },
        Object::Figure(sp) => {
            match &sp.geometry {
                None => None,
                Some(g) => {
                    if sp.transform.inversed().is_some() {
                        match object_bound(&**g) {
                            Some(b) => {
                                proof {
                                    let sub: Object = **g;
                                    lemma_bound_bounded(sub);
                                }
                                Some(xformed_bound(&b, sp.transform.origin()))
                            },
                            None => None,
                        }
                    } else {
                        Some(AxisAlignedBoundingBox::new(Vec3::new(0, 0, 0), Vec3::new(0, 0, 0)))
                    }
                },
            }
        },
        Object::Medium(cm) => object_bound(&*cm.boundary),
        Object::Node(n) => Some(*n.volume()),
    }
}

/// Push the eight corners of a box through a transform and take the
/// componentwise extremes, clamped into the world range.
fn xformed_bound(b: &AxisAlignedBoundingBox, m: &Mat4) -> (r: AxisAlignedBoundingBox)
    requires
        box_bounded(*b),
        mat_wf(*m),
    ensures
        r == xformed_bound_spec(*b, *m),
{
    proof {
        lemma_mat_entries_inv_range(*m);
    }
    let c0 = Vec4::new(b.min.x, b.min.y, b.min.z, ONE).transformed(m);
    let c1 = Vec4::new(b.max.x, b.min.y, b.min.z, ONE).transformed(m);
    let c2 = Vec4::new(b.min.x, b.max.y, b.min.z, ONE).transformed(m);
    let c3 = Vec4::new(b.min.x, b.min.y, b.max.z, ONE).transformed(m);
    let c4 = Vec4::new(b.max.x, b.max.y, b.min.z, ONE).transformed(m);
    let c5 = Vec4::new(b.max.x, b.min.y, b.max.z, ONE).transformed(m);
    let c6 = Vec4::new(b.min.x, b.max.y, b.max.z, ONE).transformed(m);
    let c7 = Vec4::new(b.max.x, b.max.y, b.max.z, ONE).transformed(m);
    let min = Vec3::new(
        clamp_coord(min8(c0.x, c1.x, c2.x, c3.x, c4.x, c5.x, c6.x, c7.x)),
        clamp_coord(min8(c0.y, c1.y, c2.y, c3.y, c4.y, c5.y, c6.y, c7.y)),
        clamp_coord(min8(c0.z, c1.z, c2.z, c3.z, c4.z, c5.z, c6.z, c7.z)),
    );
    let max = Vec3::new(
        clamp_coord(max8(c0.x, c1.x, c2.x, c3.x, c4.x, c5.x, c6.x, c7.x)),
        clamp_coord(max8(c0.y, c1.y, c2.y, c3.y, c4.y, c5.y, c6.y, c7.y)),
        clamp_coord(max8(c0.z, c1.z, c2.z, c3.z, c4.z, c5.z, c6.z, c7.z)),
    );
    AxisAlignedBoundingBox::new(min, max)
}

/// A well-formed transform's entries are within the wider inverse range.
proof fn lemma_mat_entries_inv_range(m: Mat4)
    requires
        mat_wf(m),
    ensures
        forall|i: int|
            0 <= i < 16 ==> sabs(#[trigger] m.a@[i] as int) <= crate::mat4::INV_MAX as int,
{
}

fn min8(a: i64, b: i64, c: i64, d: i64, e: i64, f: i64, g: i64, h: i64) -> (r: i64)
    ensures
        r == imin(imin(imin(a as int, b as int), imin(c as int, d as int)), imin(imin(e as int, f as int), imin(g as int, h as int))),
{
    let m1 = if a <= b { a } else { b };
    let m2 = if c <= d { c } else { d };
    let m3 = if e <= f { e } else { f };
    let m4 = if g <= h { g } else { h };
    let m5 = if m1 <= m2 { m1 } else { m2 };
    let m6 = if m3 <= m4 { m3 } else { m4 };
    if m5 <= m6 { m5 } else { m6 }
}

fn max8(a: i64, b: i64, c: i64, d: i64, e: i64, f: i64, g: i64, h: i64) -> (r: i64)
    ensures
        r == imax(imax(imax(a as int, b as int), imax(c as int, d as int)), imax(imax(e as int, f as int), imax(g as int, h as int))),
{
    let m1 = if a >= b { a } else { b };
    let m2 = if c >= d { c } else { d };
    let m3 = if e >= f { e } else { f };
    let m4 = if g >= h { g } else { h };
    let m5 = if m1 >= m2 { m1 } else { m2 };
    let m6 = if m3 >= m4 { m3 } else { m4 };
    if m5 >= m6 { m5 } else { m6 }
}

fn clamp_coord(v: i64) -> (r: Fx)
    ensures
        r == clamp_c(v as int),
{
    if v < -COORD_MAX {
        -COORD_MAX
    } else if v > COORD_MAX {
        COORD_MAX
    } else {
        v
    }
}


/// One component of a vector pulled through the stored inverse of a
/// transform.
pub open spec fn inv_comp(m: Mat4, v: Vec4, row: int) -> int {
    tdiv(
        crate::mat4::inv_entry_spec(m, row) * v.x + crate::mat4::inv_entry_spec(m, 4 + row) * v.y
            + crate::mat4::inv_entry_spec(m, 8 + row) * v.z + crate::mat4::inv_entry_spec(
            m,
            12 + row,
        ) * v.w,
        SCALE as int,
    )
}

/// The closer of two intersection results; the first wins ties.
pub open spec fn closer(a: Option<HitRecord>, b: Option<HitRecord>) -> Option<HitRecord> {
    match (a, b) {
        (Some(x), Some(y)) => if y.t < x.t {
            Some(y)
        } else {
            Some(x)
        },
        (Some(x), None) => Some(x),
        (None, Some(y)) => Some(y),
        (None, None) => None,
    }
}

/// The intersection rule of an object, threading the generator state: the
/// slab of the object's own bound is tested first, then the shape's own
/// rule applies; only a fog volume advances the state, by one draw.
pub open spec fn object_hit_spec(o: Object, ray: Ray, s: u64) -> (Option<HitRecord>, u64)
    decreases o, 0int,
{
    match object_bound_spec(o) {
        None => (None, s),
        Some(b) => if !slab_pass(b, ray) {
            (None, s)
        } else {
            match o {
                Object::Ball(sp) => (sphere_hit_spec(sp.radius, ray), s),
                Object::Quad(re) => (rectangle_hit_spec(re.width, re.height, ray), s),
                Object::Placed(t) => xform_hit_spec(*t.geometry, t.transform, None, ray, s),
                Object::Figure(spr) => match spr.geometry {
                    None => (None, s),
                    Some(g) => xform_hit_spec(*g, spr.transform, spr.material, ray, s),
                },
                Object::Medium(cm) => medium_hit_spec(*cm.boundary, cm.density, ray, s),
                Object::Node(n) => {
                    let (lres, s1) = match n.left {
                        Some(l) => object_hit_spec(*l, ray, s),
                        None => (None, s),
                    };
                    let (rres, s2) = match n.right {
                        Some(r) => object_hit_spec(*r, ray, s1),
                        None => (None, s1),
                    };
                    (closer(lres, rres), s2)
                },
            }
        },
    }
}

/// Intersection under a placement: the ray is pulled into local space by
/// the stored inverse, the local hit is pushed back by the forward
/// transform, its normal rescaled to unit length, and the given material
/// attached. Anything leaving the world range on the way counts as a miss.
pub open spec fn xform_hit_spec(
    g: Object,
    tr: Mat4Cached,
    material: Option<Arc<Material>>,
    ray: Ray,
    s: u64,
) -> (Option<HitRecord>, u64)
    decreases g, 1int,
{
    if !tr.cached_invertible() {
        (None, s)
    } else {
        let m = tr.origin_spec();
        let o4 = Vec4 { x: ray.origin.x, y: ray.origin.y, z: ray.origin.z, w: ONE };
        let d4 = Vec4 { x: ray.direction.x, y: ray.direction.y, z: ray.direction.z, w: 0 };
        let io = (inv_comp(m, o4, 0), inv_comp(m, o4, 1), inv_comp(m, o4, 2));
        let id = (inv_comp(m, d4, 0), inv_comp(m, d4, 1), inv_comp(m, d4, 2));
        if sabs(io.0) > COORD_MAX || sabs(io.1) > COORD_MAX || sabs(io.2) > COORD_MAX || sabs(id.0)
            > COORD_MAX || sabs(id.1) > COORD_MAX || sabs(id.2) > COORD_MAX {
            (None, s)
        } else {
            let inner = Ray {
                origin: Vec3 { x: io.0 as i64, y: io.1 as i64, z: io.2 as i64 },
                direction: Vec3 { x: id.0 as i64, y: id.1 as i64, z: id.2 as i64 },
            };
            let (res, s1) = object_hit_spec(g, inner, s);
            match res {
                None => (None, s1),
                Some(rec) => {
                    let p4 = Vec4 {
                        x: rec.intersection.x,
                        y: rec.intersection.y,
                        z: rec.intersection.z,
                        w: ONE,
                    };
                    let n4 = Vec4 { x: rec.normal.x, y: rec.normal.y, z: rec.normal.z, w: 0 };
                    let wp = (xform_comp(p4, m, 0), xform_comp(p4, m, 1), xform_comp(p4, m, 2));
                    let wn = (xform_comp(n4, m, 0), xform_comp(n4, m, 1), xform_comp(n4, m, 2));
                    if sabs(wp.0) > COORD_MAX || sabs(wp.1) > COORD_MAX || sabs(wp.2) > COORD_MAX
                        || sabs(wn.0) > COORD_MAX || sabs(wn.1) > COORD_MAX || sabs(wn.2)
                        > COORD_MAX {
                        (None, s1)
                    } else {
                        let nl = unit3(Vec3 { x: wn.0 as i64, y: wn.1 as i64, z: wn.2 as i64 });
                        (
                            Some(
                                HitRecord {
                                    t: rec.t,
                                    intersection: Vec3 {
                                        x: wp.0 as i64,
                                        y: wp.1 as i64,
                                        z: wp.2 as i64,
                                    },
                                    normal: Vec3 { x: nl.0 as i64, y: nl.1 as i64, z: nl.2 as i64 },
                                    material,
                                    uv: rec.uv,
                                },
                            ),
                            s1,
                        )
                    }
                },
            }
        }
    }
}

/// Intersection with a fog volume: the chord through the boundary is found
/// by one or two boundary hits, one uniform sample draws a free path, and a
/// scattering event is reported only when the path ends inside the chord.
pub open spec fn medium_hit_spec(boundary: Object, density: Fx, ray: Ray, s: u64) -> (
    Option<HitRecord>,
    u64,
)
    decreases boundary, 2int,
{
    let (h1, s1) = object_hit_spec(boundary, ray, s);
    match h1 {
        None => (None, s1),
        Some(rec1) => if dot3(rec1.normal, ray.direction) < 0 {
            // entering: find the exit from just past the entry point
            let ray2 = Ray { origin: rec1.intersection, direction: ray.direction };
            let (h2, s2) = object_hit_spec(boundary, ray2, s1);
            match h2 {
                None => (None, s2),
                Some(rec2) => {
                    let u = draw_unit(s2);
                    let s3 = lcg_next(s2) as u64;
                    let dist = free_path_spec(u, density as int);
                    if dist > rec2.t || rec1.t + dist > COORD_MAX {
                        (None, s3)
                    } else {
                        let t = (rec1.t + dist) as i64;
                        let p = crate::ray::ray_at_spec(ray, t as int);
                        if sabs(p.0) > COORD_MAX || sabs(p.1) > COORD_MAX || sabs(p.2)
                            > COORD_MAX {
                            (None, s3)
                        } else {
                            (
                                Some(
                                    HitRecord {
                                        t,
                                        intersection: Vec3 {
                                            x: p.0 as i64,
                                            y: p.1 as i64,
                                            z: p.2 as i64,
                                        },
                                        normal: Vec3 {
                                            x: tdiv(rec1.normal.x + rec2.normal.x, 2) as i64,
                                            y: tdiv(rec1.normal.y + rec2.normal.y, 2) as i64,
                                            z: tdiv(rec1.normal.z + rec2.normal.z, 2) as i64,
                                        },
                                        material: None,
                                        uv: (
                                            clamp_c(rec1.uv.0 + rec2.uv.0),
                                            clamp_c(rec1.uv.1 + rec2.uv.1),
                                        ),
                                    },
                                ),
                                s3,
                            )
                        }
                    }
                },
            }
        } else {
            // the ray starts inside: the chord runs from the origin out
            let u = draw_unit(s1);
            let s2 = lcg_next(s1) as u64;
            let dist = free_path_spec(u, density as int);
            if dist > rec1.t {
                (None, s2)
            } else {
                let p = crate::ray::ray_at_spec(ray, dist);
                if sabs(p.0) > COORD_MAX || sabs(p.1) > COORD_MAX || sabs(p.2) > COORD_MAX {
                    (None, s2)
                } else {
                    (
                        Some(
                            HitRecord {
                                t: dist as i64,
                                intersection: Vec3 { x: p.0 as i64, y: p.1 as i64, z: p.2 as i64 },
                                normal: rec1.normal,
                                material: None,
                                uv: rec1.uv,
                            },
                        ),
                        s2,
                    )
                }
            }
        },
    }
}

/// The unit sample a generator state yields, kept away from zero so its
/// logarithm exists.
pub open spec fn draw_unit(s: u64) -> int {
    let u = (lcg_next(s) as u64) >> 48;
    if u < 1 {
        1
    } else {
        u as int
    }
}


/// Intersect a ray with an object. Only a fog volume draws from the
/// generator, and exactly as the specification says.
#[verifier::rlimit(100)]
pub fn object_hit(o: &Object, ray: &Ray, generator: &mut Lcg) -> (r: Option<HitRecord>)
    requires
        object_wf(*o),
        ray_bounded(*ray),
    ensures
        (r, final(generator).state) == object_hit_spec(*o, *ray, old(generator).state),
        r matches Some(h) ==> rec_wf(h),
        rec_material_wf(r),
    decreases *o, 0int,
{
    let bound = object_bound(o);
    match &bound {
        None => {
            return None;
        },
        Some(b) => {
            proof {
                lemma_bound_bounded(*o);
            }
            if !slab_hit(b, ray) {
                return None;
            }
        },
    }
    proof {
        assert(object_bound_spec(*o) matches Some(bb) && slab_pass(bb, *ray));
    }
    match o {
        Object::Ball(sp) => {
            let rr = sp.hit(ray);
            proof {
                assert(object_hit_spec(*o, *ray, old(generator).state) == (
                sphere_hit_spec(sp.radius, *ray),
                old(generator).state,
                ));
            }
            rr
        },
        Object::Quad(re) => re.hit(ray),
        Object::Placed(t) => xform_hit(&t.geometry, &t.transform, &None, ray, generator),
        Object::Figure(spr) => match &spr.geometry {
            None => None,
            Some(g) => xform_hit(g, &spr.transform, &spr.material, ray, generator),
        },
        Object::Medium(cm) => medium_hit(&cm.boundary, cm.density, ray, generator),
        Object::Node(n) => {
            let lres = match &n.left {
                Some(l) => object_hit(&**l, ray, generator),
                None => None,
            };
            let rres = match &n.right {
                Some(rr) => object_hit(&**rr, ray, generator),
                None => None,
            };
            match (lres, rres) {
                (Some(x), Some(y)) => if y.t() < x.t() {
                    Some(y)
                } else {
                    Some(x)
                },
                (Some(x), None) => Some(x),
                (None, Some(y)) => Some(y),
                (None, None) => None,
            }
        },
    }
}

/// A free path is nonnegative and fits the division's range.
proof fn lemma_free_path_fits(nl: int, density: int)
    requires
        0 <= nl <= 17 * crate::volume::LN2_FX + 2 * SCALE,
        1 <= density <= COORD_MAX as int,
    ensures
        crate::fx::fits_op(nl),
        crate::fx::fits_op(density),
        sabs(nl) * SCALE <= crate::fx::OP_MAX * sabs(density),
        0 <= crate::fx::fx_div_spec(nl, density),
{
    assert(sabs(nl) * SCALE <= crate::fx::OP_MAX * sabs(density)) by (nonlinear_arith)
        requires
            0 <= nl <= 17 * 45426 + 2 * 65536,
            1 <= density,
            SCALE == 65536,
    ;
    crate::fx::lemma_div_le(sabs(nl) * SCALE, sabs(density));
    assert(sabs(nl) * SCALE >= 0) by (nonlinear_arith)
        requires
            nl >= 0,
    ;
}

/// Intersection under a placement, executably.
#[verifier::rlimit(60)]
fn xform_hit(
    g: &Arc<Object>,
    tr: &Mat4Cached,
    material: &Option<Arc<Material>>,
    ray: &Ray,
    generator: &mut Lcg,
) -> (r: Option<HitRecord>)
    requires
        object_wf(**g),
        tr.cached_wf(),
        ray_bounded(*ray),
    ensures
        (r, final(generator).state) == xform_hit_spec(
            **g,
            *tr,
            *material,
            *ray,
            old(generator).state,
        ),
        r matches Some(h) ==> rec_wf(h),
        (match material {
            Some(m) => material_wf(**m),
            None => true,
        }) ==> rec_material_wf(r),
    decreases **g, 1int,
{
    let inv = match tr.inversed() {
        None => {
            return None;
        },
        Some(i) => i,
    };
    let m = tr.origin();
    let o4 = Vec4::new(ray.origin.x, ray.origin.y, ray.origin.z, ONE).transformed(inv);
    let d4 = Vec4::new(ray.direction.x, ray.direction.y, ray.direction.z, 0).transformed(inv);
    let io = o4.xyz();
    let id = d4.xyz();
    proof {
        let o4s = Vec4 { x: ray.origin.x, y: ray.origin.y, z: ray.origin.z, w: ONE };
        let d4s = Vec4 { x: ray.direction.x, y: ray.direction.y, z: ray.direction.z, w: 0 };
        assert(io.x == inv_comp(tr.origin_spec(), o4s, 0));
        assert(io.y == inv_comp(tr.origin_spec(), o4s, 1));
        assert(io.z == inv_comp(tr.origin_spec(), o4s, 2));
        assert(id.x == inv_comp(tr.origin_spec(), d4s, 0));
        assert(id.y == inv_comp(tr.origin_spec(), d4s, 1));
        assert(id.z == inv_comp(tr.origin_spec(), d4s, 2));
    }
    if !crate::geometry::in_world(&io) || !crate::geometry::in_world(&id) {
        return None;
    }
    let inner = Ray::new(io, id);
    let res = object_hit(&**g, &inner, generator);
    match res {
        None => None,
        Some(rec) => {
            proof {
                lemma_mat_entries_inv_range(tr.origin_spec());
            }
            let p4 = Vec4::new(rec.intersection.x, rec.intersection.y, rec.intersection.z, ONE)
                .transformed(m);
            let n4 = Vec4::new(rec.normal.x, rec.normal.y, rec.normal.z, 0).transformed(m);
            let wp = p4.xyz();
            let wn = n4.xyz();
            if !crate::geometry::in_world(&wp) || !crate::geometry::in_world(&wn) {
                return None;
            }
            let nl = wn.normalized();
            let mat = match material {
                None => None,
                Some(a) => Some(crate::util::share(a)),
            };
            Some(HitRecord::new(rec.t(), wp, nl, mat, *rec.uv()))
        },
    }
}


/// Intersection with a fog volume, executably.
#[verifier::rlimit(100)]
fn medium_hit(boundary: &Arc<Object>, density: Fx, ray: &Ray, generator: &mut Lcg) -> (r: Option<
    HitRecord,
>)
    requires
        object_wf(**boundary),
        deterministic_object(**boundary),
        1 <= density <= COORD_MAX,
        ray_bounded(*ray),
    ensures
        (r, final(generator).state) == medium_hit_spec(
            **boundary,
            density,
            *ray,
            old(generator).state,
        ),
        r matches Some(h) ==> rec_wf(h),
        rec_material_wf(r),
    decreases **boundary, 2int,
{
    let h1 = object_hit(&**boundary, ray, generator);
    match h1 {
        None => None,
        Some(rec1) => {
            if rec1.normal().dot(ray.direction()) < 0 {
                let ray2 = Ray::new(*rec1.intersection(), *ray.direction());
                let h2 = object_hit(&**boundary, &ray2, generator);
                match h2 {
                    None => None,
                    Some(rec2) => {
                        let ghost smid = generator.state;
                        let u0 = generator.next_unit();
                        let u = if u0 < 1 {
                            1
                        } else {
                            u0
                        };
                        proof {
                            assert(u == draw_unit(smid));
                            assert(generator.state == lcg_next(smid) as u64);
                        }
                        let nl = neg_ln_unit(u);
                        proof {
                            lemma_free_path_fits(nl as int, density as int);
                        }
                        let dist = crate::fx::fx_div(nl, density);
                        proof {
                            assert(dist == free_path_spec(draw_unit(smid), density as int));
                        }
                        if dist > rec2.t() || rec1.t() + dist > COORD_MAX {
                            None
                        } else {
                            let t = rec1.t() + dist;
                            let p = ray.at(t);
                            if !crate::geometry::in_world(&p) {
                                None
                            } else {
                                let normal = Vec3::new(
                                    (rec1.normal().x + rec2.normal().x) / 2,
                                    (rec1.normal().y + rec2.normal().y) / 2,
                                    (rec1.normal().z + rec2.normal().z) / 2,
                                );
                                let uv = (
                                    clamp_coord(rec1.uv().0 + rec2.uv().0),
                                    clamp_coord(rec1.uv().1 + rec2.uv().1),
                                );
                                Some(HitRecord::new(t, p, normal, None, uv))
                            }
                        }
                    },
                }
            } else {
                let u0 = generator.next_unit();
                let u = if u0 < 1 {
                    1
                } else {
                    u0
                };
                let nl = neg_ln_unit(u);
                proof {
                    lemma_free_path_fits(nl as int, density as int);
                }
                let dist = crate::fx::fx_div(nl, density);
                if dist > rec1.t() {
                    None
                } else {
                    let p = ray.at(dist);
                    if !crate::geometry::in_world(&p) {
                        None
                    } else {
                        Some(HitRecord::new(dist, p, *rec1.normal(), None, *rec1.uv()))
                    }
                }
            }
        },
    }
}


/// The leaf objects a hierarchy ultimately tests: a node contributes its
/// children's leaves, anything else is itself a leaf.
pub open spec fn leaves(o: Object) -> Multiset<Object>
    decreases o,
{
    match o {
        Object::Node(n) => (match n.left {
            Some(l) => leaves(*l),
            None => Multiset::empty(),
        }).add(
            match n.right {
                Some(r) => leaves(*r),
                None => Multiset::empty(),
            },
        ),
        _ => Multiset::singleton(o),
    }
}

/// The leaves contributed by a whole sequence of objects.
pub open spec fn seq_leaves(s: Seq<Object>) -> Multiset<Object>
    decreases s.len(),
{
    if s.len() == 0 {
        Multiset::empty()
    } else {
        seq_leaves(s.drop_last()).add(leaves(s.last()))
    }
}

/// Appending one object adds its leaves.
pub proof fn lemma_seq_leaves_push(s: Seq<Object>, x: Object)
    ensures
        seq_leaves(s.push(x)) == seq_leaves(s).add(leaves(x)),
{
    assert(s.push(x).drop_last() =~= s);
    assert(s.push(x).last() == x);
}

/// Removing one object takes exactly its leaves away.
pub proof fn lemma_seq_leaves_remove(s: Seq<Object>, i: int)
    requires
        0 <= i < s.len(),
    ensures
        seq_leaves(s) == seq_leaves(s.remove(i)).add(leaves(s[i])),
    decreases s.len(),
{
    broadcast use vstd::multiset::group_multiset_axioms;

    if i == s.len() - 1 {
        assert(s.remove(i) =~= s.drop_last());
    } else {
        lemma_seq_leaves_remove(s.drop_last(), i);
        assert(s.remove(i).drop_last() =~= s.drop_last().remove(i));
        assert(s.remove(i).last() == s.last());
        assert(seq_leaves(s.remove(i)) == seq_leaves(s.drop_last().remove(i)).add(
            leaves(s.last()),
        ));
        assert(seq_leaves(s.remove(i)).add(leaves(s[i])) == seq_leaves(s.drop_last().remove(i)).add(
            leaves(s.last()),
        ).add(leaves(s[i])));
        assert(seq_leaves(s.drop_last().remove(i)).add(leaves(s.last())).add(leaves(s[i]))
            =~= seq_leaves(s.drop_last().remove(i)).add(leaves(s[i])).add(leaves(s.last())));
        assert(s.drop_last()[i] == s[i]);
    }
}

/// Splitting a sequence splits its leaves.
pub proof fn lemma_seq_leaves_concat(a: Seq<Object>, b: Seq<Object>)
    ensures
        seq_leaves(a + b) == seq_leaves(a).add(seq_leaves(b)),
    decreases b.len(),
{
    broadcast use vstd::multiset::group_multiset_axioms;

    if b.len() == 0 {
        assert(a + b =~= a);
        assert(seq_leaves(a).add(seq_leaves(b)) =~= seq_leaves(a));
    } else {
        lemma_seq_leaves_concat(a, b.drop_last());
        assert((a + b).drop_last() =~= a + b.drop_last());
        assert((a + b).last() == b.last());
        assert(seq_leaves(a).add(seq_leaves(b.drop_last())).add(leaves(b.last())) =~= seq_leaves(
            a,
        ).add(seq_leaves(b.drop_last()).add(leaves(b.last()))));
    }
}



/// The left child of a node, or the fallback.
pub open spec fn child_left(n: BoundingVolumeHierarchyNode, dflt: Object) -> Object {
    match n.left {
        Some(l) => *l,
        None => dflt,
    }
}

/// The right child of a node, or the fallback.
pub open spec fn child_right(n: BoundingVolumeHierarchyNode, dflt: Object) -> Object {
    match n.right {
        Some(r) => *r,
        None => dflt,
    }
}


/// Any material a record carries is well formed.
pub open spec fn rec_material_wf(r: Option<HitRecord>) -> bool {
    match r {
        Some(h) => match h.material {
            Some(m) => material_wf(*m),
            None => true,
        },
        None => true,
    }
}

/// The hit of a deterministic object, with the generator state irrelevant.
pub open spec fn det_hit(o: Object, ray: Ray) -> Option<HitRecord> {
    object_hit_spec(o, ray, 0).0
}

/// Intersection of a deterministic object neither reads nor moves the
/// generator state.
pub proof fn lemma_hit_state(o: Object, ray: Ray, s: u64)
    requires
        deterministic_object(o),
    ensures
        object_hit_spec(o, ray, s) == (det_hit(o, ray), s),
    decreases o, 0int,
{
    match o {
        Object::Ball(_) => {},
        Object::Quad(_) => {},
        Object::Placed(t) => {
            let sub: Object = *t.geometry;
            lemma_xform_state(sub, t.transform, None, ray, s);
        },
        Object::Figure(sp) => {
            match sp.geometry {
                Some(g) => {
                    let sub: Object = *g;
                    lemma_xform_state(sub, sp.transform, sp.material, ray, s);
                },
                None => {},
            }
        },
        Object::Medium(_) => {},
        Object::Node(n) => {
            match n.left {
                Some(l) => {
                    let sub: Object = *l;
                    lemma_hit_state(sub, ray, s);
                    lemma_hit_state(sub, ray, 0);
                },
                None => {},
            }
            match n.right {
                Some(r) => {
                    let sub: Object = *r;
                    lemma_hit_state(sub, ray, s);
                    lemma_hit_state(sub, ray, 0);
                },
                None => {},
            }
        },
    }
}

proof fn lemma_xform_state(
    g: Object,
    tr: Mat4Cached,
    material: Option<Arc<Material>>,
    ray: Ray,
    s: u64,
)
    requires
        deterministic_object(g),
    ensures
        xform_hit_spec(g, tr, material, ray, s) == (
            xform_hit_spec(g, tr, material, ray, 0).0,
            s,
        ),
    decreases g, 1int,
{
    if tr.cached_invertible() {
        let m = tr.origin_spec();
        let o4 = Vec4 { x: ray.origin.x, y: ray.origin.y, z: ray.origin.z, w: ONE };
        let d4 = Vec4 { x: ray.direction.x, y: ray.direction.y, z: ray.direction.z, w: 0 };
        let io = (inv_comp(m, o4, 0), inv_comp(m, o4, 1), inv_comp(m, o4, 2));
        let id = (inv_comp(m, d4, 0), inv_comp(m, d4, 1), inv_comp(m, d4, 2));
        if !(sabs(io.0) > COORD_MAX || sabs(io.1) > COORD_MAX || sabs(io.2) > COORD_MAX || sabs(
            id.0,
        ) > COORD_MAX || sabs(id.1) > COORD_MAX || sabs(id.2) > COORD_MAX) {
            let inner = Ray {
                origin: Vec3 { x: io.0 as i64, y: io.1 as i64, z: io.2 as i64 },
                direction: Vec3 { x: id.0 as i64, y: id.1 as i64, z: id.2 as i64 },
            };
            lemma_hit_state(g, inner, s);
            lemma_hit_state(g, inner, 0);
        }
    }
}

/// An object that reports a hit passed the slab test of its own bound.
pub proof fn lemma_hit_implies_slab(o: Object, ray: Ray)
    ensures
        det_hit(o, ray) is Some ==> (object_bound_spec(o) matches Some(b) && slab_pass(b, ray)),
{
}

/// Every leaf's bound fits inside the bound of the tree above it.
pub proof fn lemma_leaf_bound_inside(o: Object, x: Object)
    requires
        object_wf(o),
        object_bound_spec(o) is Some,
        leaves(o).contains(x),
    ensures
        object_bound_spec(x) is Some,
        box_inside(object_bound_spec(x).unwrap(), object_bound_spec(o).unwrap()),
    decreases o,
{
    broadcast use vstd::multiset::group_multiset_axioms;

    match o {
        Object::Node(n) => {
            let lsub: Object = child_left(n, o);
            let rsub: Object = child_right(n, o);
            let lm = if n.left is Some {
                leaves(lsub)
            } else {
                Multiset::empty()
            };
            let rm = if n.right is Some {
                leaves(rsub)
            } else {
                Multiset::empty()
            };
            assert(lm.count(x) + rm.count(x) > 0);
            if lm.count(x) > 0 {
                lemma_leaf_bound_inside(lsub, x);
                crate::optimize::lemma_merge_contains(
                    object_bound_spec(lsub).unwrap(),
                    if n.right is Some {
                        object_bound_spec(rsub).unwrap()
                    } else {
                        object_bound_spec(lsub).unwrap()
                    },
                );
                crate::optimize::lemma_inside_trans(
                    object_bound_spec(x).unwrap(),
                    object_bound_spec(lsub).unwrap(),
                    n.volume,
                );
            } else {
                lemma_leaf_bound_inside(rsub, x);
                if n.left is Some {
                    crate::optimize::lemma_merge_contains(
                        object_bound_spec(lsub).unwrap(),
                        object_bound_spec(rsub).unwrap(),
                    );
                }
                crate::optimize::lemma_inside_trans(
                    object_bound_spec(x).unwrap(),
                    object_bound_spec(rsub).unwrap(),
                    n.volume,
                );
            }
        },
        _ => {
            assert(leaves(o) == Multiset::singleton(o));
            assert(x == o) by {
                if x != o {
                    assert(Multiset::singleton(o).count(x) == 0);
                }
            }
        },
    }
}

/// No leaf of a tree hits when none exists.
pub open spec fn misses_all(m: Multiset<Object>, ray: Ray) -> bool {
    forall|x: Object| #[trigger] m.contains(x) ==> det_hit(x, ray) is None
}

/// The record is a leaf's hit with the least parameter among all of them.
pub open spec fn closest_in(h: HitRecord, m: Multiset<Object>, ray: Ray) -> bool {
    &&& exists|x: Object| #[trigger] m.contains(x) && det_hit(x, ray) == Some(h)
    &&& forall|x: Object| #[trigger]
        m.contains(x) ==> match det_hit(x, ray) {
            Some(g) => h.t <= g.t,
            None => true,
        }
}

/// Traversing a hierarchy finds exactly what testing every leaf would: it
/// misses exactly when all leaves miss, and any hit it returns is a leaf's
/// hit with the least ray parameter.
#[verifier::rlimit(100)]
pub proof fn lemma_hierarchy_closest(o: Object, ray: Ray)
    requires
        object_wf(o),
        deterministic_object(o),
    ensures
        det_hit(o, ray) is None <==> misses_all(leaves(o), ray),
        det_hit(o, ray) matches Some(h) ==> closest_in(h, leaves(o), ray),
    decreases o,
{
    broadcast use vstd::multiset::group_multiset_axioms;

    match o {
        Object::Node(n) => {
            let lsub: Object = child_left(n, o);
            let rsub: Object = child_right(n, o);
            let lm = if n.left is Some {
                leaves(lsub)
            } else {
                Multiset::empty()
            };
            let rm = if n.right is Some {
                leaves(rsub)
            } else {
                Multiset::empty()
            };
            let volume = n.volume;
            if !slab_pass(volume, ray) {
                // pruned: show every leaf misses, through bound containment
                assert forall|x: Object| #[trigger] leaves(o).contains(x) implies det_hit(
                    x,
                    ray,
                ) is None by {
                    lemma_hit_implies_slab(x, ray);
                    if det_hit(x, ray) is Some {
                        lemma_leaf_bound_inside(o, x);
                        crate::optimize::lemma_slab_monotone(
                            object_bound_spec(x).unwrap(),
                            volume,
                            ray,
                        );
                    }
                }
                assert(det_hit(o, ray) is None);
            } else {
                let lres = if n.left is Some {
                    det_hit(lsub, ray)
                } else {
                    None
                };
                let rres = if n.right is Some {
                    det_hit(rsub, ray)
                } else {
                    None
                };
                if n.left is Some {
                    lemma_hit_state(lsub, ray, 0);
                    lemma_hierarchy_closest(lsub, ray);
                }
                if n.right is Some {
                    lemma_hit_state(rsub, ray, 0);
                    lemma_hierarchy_closest(rsub, ray);
                }
                assert(det_hit(o, ray) == closer(lres, rres));
                lemma_combine_closest(lres, rres, lm, rm, ray);
                assert(leaves(o) == lm.add(rm));
            }
        },
        _ => {
            assert(leaves(o) == Multiset::singleton(o));
            assert(leaves(o).contains(o));
            if det_hit(o, ray) is None {
                assert forall|x: Object| #[trigger] leaves(o).contains(x) implies det_hit(
                    x,
                    ray,
                ) is None by {
                    if x != o {
                        assert(Multiset::singleton(o).count(x) == 0);
                    }
                }
            } else {
                let h = det_hit(o, ray).unwrap();
                assert(closest_in(h, leaves(o), ray)) by {
                    assert(leaves(o).contains(o) && det_hit(o, ray) == Some(h));
                    assert forall|x: Object| #[trigger] leaves(o).contains(x) implies match det_hit(
                        x,
                        ray,
                    ) {
                        Some(g) => h.t <= g.t,
                        None => true,
                    } by {
                        if x != o {
                            assert(Multiset::singleton(o).count(x) == 0);
                        }
                    }
                }
            }
        },
    }
}

/// Combining the two children's verdicts with the closer rule yields the
/// verdict over both leaf sets together.
proof fn lemma_combine_closest(
    lres: Option<HitRecord>,
    rres: Option<HitRecord>,
    lm: Multiset<Object>,
    rm: Multiset<Object>,
    ray: Ray,
)
    requires
        lres is None <==> misses_all(lm, ray),
        lres matches Some(h) ==> closest_in(h, lm, ray),
        rres is None <==> misses_all(rm, ray),
        rres matches Some(h) ==> closest_in(h, rm, ray),
    ensures
        closer(lres, rres) is None <==> misses_all(lm.add(rm), ray),
        closer(lres, rres) matches Some(h) ==> closest_in(h, lm.add(rm), ray),
{
    broadcast use vstd::multiset::group_multiset_axioms;

    match (lres, rres) {
        (None, None) => {
            assert forall|x: Object| #[trigger] lm.add(rm).contains(x) implies det_hit(
                x,
                ray,
            ) is None by {
                assert(lm.count(x) + rm.count(x) > 0);
                if lm.count(x) > 0 {
                    assert(lm.contains(x));
                } else {
                    assert(rm.contains(x));
                }
            }
        },
        (Some(h), None) => {
            assert(lm.contains(choose|x: Object| #[trigger] lm.contains(x) && det_hit(x, ray)
                == Some(h)));
            assert(!misses_all(lm, ray));
            lemma_one_side_closest(h, lm, rm, ray);
        },
        (None, Some(h)) => {
            lemma_one_side_closest(h, rm, lm, ray);
            assert(closest_in(h, rm.add(lm), ray));
            assert(rm.add(lm) =~= lm.add(rm));
        },
        (Some(a), Some(b)) => {
            let h = if b.t < a.t {
                b
            } else {
                a
            };
            let side = if b.t < a.t {
                rm
            } else {
                lm
            };
            let wx = choose|x: Object| #[trigger] side.contains(x) && det_hit(x, ray) == Some(h);
            assert(side.contains(wx) && det_hit(wx, ray) == Some(h)) by {
                assert(exists|x: Object| #[trigger] side.contains(x) && det_hit(x, ray) == Some(h));
            }
            assert(lm.add(rm).contains(wx));
            assert forall|x: Object| #[trigger] lm.add(rm).contains(x) implies match det_hit(
                x,
                ray,
            ) {
                Some(g) => h.t <= g.t,
                None => true,
            } by {
                assert(lm.count(x) + rm.count(x) > 0);
                if lm.count(x) > 0 {
                    assert(lm.contains(x));
                } else {
                    assert(rm.contains(x));
                }
            }
        },
    }
}

/// A side's closest hit is closest over both sides when the other side
/// misses entirely.
proof fn lemma_one_side_closest(h: HitRecord, m: Multiset<Object>, other: Multiset<Object>, ray: Ray)
    requires
        closest_in(h, m, ray),
        misses_all(other, ray),
    ensures
        closest_in(h, m.add(other), ray),
{
    broadcast use vstd::multiset::group_multiset_axioms;

    let wx = choose|x: Object| #[trigger] m.contains(x) && det_hit(x, ray) == Some(h);
    assert(m.add(other).contains(wx));
    assert forall|x: Object| #[trigger] m.add(other).contains(x) implies match det_hit(x, ray) {
        Some(g) => h.t <= g.t,
        None => true,
    } by {
        assert(m.count(x) + other.count(x) > 0);
        if m.count(x) > 0 {
            assert(m.contains(x));
        } else {
            assert(other.contains(x));
        }
    }
}


/// The brute-force reference: every object tested in turn, keeping the
/// closest hit, threading the generator state left to right.
pub open spec fn list_hit_spec(s: Seq<Object>, ray: Ray, st: u64) -> (Option<HitRecord>, u64)
    decreases s.len(),
{
    if s.len() == 0 {
        (None, st)
    } else {
        let (prev, st1) = list_hit_spec(s.drop_last(), ray, st);
        let (cur, st2) = object_hit_spec(s.last(), ray, st1);
        (closer(prev, cur), st2)
    }
}

/// Test every object in turn and keep the closest hit.
pub fn hit_list(objects: &Vec<Object>, ray: &Ray, generator: &mut Lcg) -> (r: Option<HitRecord>)
    requires
        forall|i: int| 0 <= i < objects@.len() ==> object_wf(#[trigger] objects@[i]),
        ray_bounded(*ray),
    ensures
        (r, final(generator).state) == list_hit_spec(objects@, *ray, old(generator).state),
        r matches Some(h) ==> rec_wf(h),
        rec_material_wf(r),
{
    let ghost st0 = generator.state;
    let mut acc: Option<HitRecord> = None;
    let mut i: usize = 0;
    proof {
        assert(objects@.subrange(0, 0) =~= Seq::<Object>::empty());
    }
    while i < objects.len()
        invariant
            i <= objects@.len(),
            forall|k: int| 0 <= k < objects@.len() ==> object_wf(#[trigger] objects@[k]),
            ray_bounded(*ray),
            (acc, generator.state) == list_hit_spec(objects@.subrange(0, i as int), *ray, st0),
            acc matches Some(h) ==> rec_wf(h),
            rec_material_wf(acc),
        decreases objects@.len() - i,
    {
        let cur = object_hit(&objects[i], ray, generator);
        proof {
            assert(objects@.subrange(0, i + 1).drop_last() =~= objects@.subrange(0, i as int));
            assert(objects@.subrange(0, i + 1).last() == objects@[i as int]);
        }
        acc = match (acc, cur) {
            (Some(x), Some(y)) => if y.t() < x.t() {
                Some(y)
            } else {
                Some(x)
            },
            (Some(x), None) => Some(x),
            (None, Some(y)) => Some(y),
            (None, None) => None,
        };
        i = i + 1;
    }
    proof {
        assert(objects@.subrange(0, objects@.len() as int) =~= objects@);
    }
    acc
}

/// Over deterministic objects the linear scan neither moves the state nor
/// depends on it, and it finds exactly the closest hit among all leaves.
pub proof fn lemma_list_closest(s: Seq<Object>, ray: Ray)
    requires
        forall|i: int|
            0 <= i < s.len() ==> object_wf(#[trigger] s[i]) && deterministic_object(s[i]),
    ensures
        forall|st: u64| #[trigger]
            list_hit_spec(s, ray, st) == (list_hit_spec(s, ray, 0).0, st),
        list_hit_spec(s, ray, 0).0 is None <==> misses_all(seq_leaves(s), ray),
        list_hit_spec(s, ray, 0).0 matches Some(h) ==> closest_in(h, seq_leaves(s), ray),
    decreases s.len(),
{
    broadcast use vstd::multiset::group_multiset_axioms;

    if s.len() == 0 {
        assert forall|x: Object| #[trigger]
            seq_leaves(s).contains(x) implies det_hit(x, ray) is None by {
            assert(Multiset::<Object>::empty().count(x) == 0);
        }
    } else {
        let head = s.drop_last();
        let last = s.last();
        lemma_list_closest(head, ray);
        lemma_hierarchy_closest(last, ray);
        assert forall|st: u64| #[trigger]
            list_hit_spec(s, ray, st) == (list_hit_spec(s, ray, 0).0, st) by {
            lemma_hit_state(last, ray, st);
            lemma_hit_state(last, ray, 0);
            assert(list_hit_spec(head, ray, st) == (list_hit_spec(head, ray, 0).0, st));
        }
        lemma_hit_state(last, ray, 0);
        let prev = list_hit_spec(head, ray, 0).0;
        let cur = det_hit(last, ray);
        assert(list_hit_spec(s, ray, 0).0 == closer(prev, cur));
        lemma_combine_closest(prev, cur, seq_leaves(head), leaves(last), ray);
    }
}

/// The law of the hierarchy: over the same collection of leaves, the tree
/// traversal and the brute-force scan miss together, and any hits they
/// report stand at the same ray parameter.
pub proof fn lemma_hierarchy_matches_linear(tree: Object, objs: Seq<Object>, ray: Ray)
    requires
        object_wf(tree),
        deterministic_object(tree),
        forall|i: int|
            0 <= i < objs.len() ==> object_wf(#[trigger] objs[i]) && deterministic_object(objs[i]),
        leaves(tree) == seq_leaves(objs),
    ensures
        det_hit(tree, ray) is None <==> list_hit_spec(objs, ray, 0).0 is None,
        (det_hit(tree, ray) is Some && list_hit_spec(objs, ray, 0).0 is Some) ==> det_hit(
            tree,
            ray,
        ).unwrap().t == list_hit_spec(objs, ray, 0).0.unwrap().t,
{
    broadcast use vstd::multiset::group_multiset_axioms;

    lemma_hierarchy_closest(tree, ray);
    lemma_list_closest(objs, ray);
    let m = leaves(tree);
    match (det_hit(tree, ray), list_hit_spec(objs, ray, 0).0) {
        (Some(a), Some(b)) => {
            let wa = choose|x: Object| #[trigger] m.contains(x) && det_hit(x, ray) == Some(a);
            let wb = choose|x: Object| #[trigger] m.contains(x) && det_hit(x, ray) == Some(b);
            assert(m.contains(wa) && det_hit(wa, ray) == Some(a)) by {
                assert(exists|x: Object| #[trigger] m.contains(x) && det_hit(x, ray) == Some(a));
            }
            assert(m.contains(wb) && det_hit(wb, ray) == Some(b)) by {
                assert(exists|x: Object| #[trigger] m.contains(x) && det_hit(x, ray) == Some(b));
            }
            assert(a.t <= b.t);
            assert(b.t <= a.t);
        },
        (Some(a), None) => {
            let wa = choose|x: Object| #[trigger] m.contains(x) && det_hit(x, ray) == Some(a);
            assert(m.contains(wa) && det_hit(wa, ray) == Some(a)) by {
                assert(exists|x: Object| #[trigger] m.contains(x) && det_hit(x, ray) == Some(a));
            }
            assert(false);
        },
        (None, Some(b)) => {
            let wb = choose|x: Object| #[trigger] m.contains(x) && det_hit(x, ray) == Some(b);
            assert(m.contains(wb) && det_hit(wb, ray) == Some(b)) by {
                assert(exists|x: Object| #[trigger] m.contains(x) && det_hit(x, ray) == Some(b));
            }
            assert(false);
        },
        (None, None) => {},
    }
}

} // verus!

//! The primitive shapes and their ray intersection rules. Each shape lives
//! in its own local coordinates; placement comes from the transform adapter.

use vstd::prelude::*;

use crate::fx::fx_div;
use crate::fx::fx_div_spec;
use crate::fx::fx_mul;
use crate::fx::fx_mul_spec;
use crate::fx::sabs;
use crate::fx::sqrt_floor;
use crate::fx::tdiv;
use crate::fx::tdiv_i128_pos;
use crate::fx::Fx;
use crate::fx::COORD_MAX;
use crate::fx::SCALE;
use crate::ray::ray_at_spec;
use crate::ray::ray_bounded;
use crate::ray::rec_wf;
use crate::ray::HitRecord;
use crate::ray::Ray;
use crate::vec3::b3;
use crate::vec3::dot3;
use crate::vec3::unit3;
use crate::vec3::Vec3;

verus! {

/// Parameters this close to zero are discarded, so a scattered ray does not
/// strike the surface it starts on; the threshold is a tunable number of
/// grid steps.
pub const HIT_EPS: i64 = 8;

/// A sphere of the given radius centred at the local origin.
#[derive(Clone, Copy, Debug, PartialEq, Eq, Structural)]
pub struct Sphere {
    pub radius: Fx,
}

/// A radius is positive and world-sized.
pub open spec fn sphere_wf(s: Sphere) -> bool {
    1 <= s.radius <= COORD_MAX
}

/// The longitude coordinate of a unit direction: an exact piecewise
/// rational parameterization of the angle around the y axis, growing with
/// it, anchored at the four half-axes; the poles map to zero.
pub open spec fn sphere_u_spec(n: Vec3) -> int {
    let dsum = sabs(n.x as int) + sabs(n.z as int);
    if dsum == 0 {
        0
    } else {
        let f = tdiv(n.x * SCALE, dsum);
        if n.z >= 0 {
            (2 * SCALE + f) / 4
        } else if n.x >= 0 {
            (4 * SCALE - f) / 4
        } else {
            (-f) / 4
        }
    }
}

/// The latitude coordinate of a unit direction, growing with its height.
pub open spec fn sphere_v_spec(n: Vec3) -> int {
    let v = (SCALE + n.y) / 2;
    if v < 0 {
        0
    } else if v > SCALE {
        SCALE as int
    } else {
        v
    }
}

/// The intersection of a ray with a sphere at the local origin: the smaller
/// admissible root of the quadratic, its point, the outward normal and the
/// spherical surface coordinates. There is no hit when the direction is
/// degenerate, the discriminant is negative, both roots are too close or
/// behind, or the point leaves the world range.
pub open spec fn sphere_hit_spec(radius: Fx, ray: Ray) -> Option<HitRecord> {
    let a = dot3(ray.direction, ray.direction);
    let b = 2 * dot3(ray.origin, ray.direction);
    let c = dot3(ray.origin, ray.origin) - fx_mul_spec(radius as int, radius as int);
    if a < 1 {
        None
    } else {
        let disc = b * b - 4 * a * c;
        if disc < 0 {
            None
        } else {
            let sq = sqrt_floor(disc);
            let t1 = tdiv((-b - sq) * SCALE, 2 * a);
            let t2 = tdiv((-b + sq) * SCALE, 2 * a);
            let t = if t1 > HIT_EPS {
                t1
            } else if t2 > HIT_EPS {
                t2
            } else {
                -1
            };
            if t < 0 || t > COORD_MAX {
                None
            } else {
                let p = ray_at_spec(ray, t);
                if sabs(p.0) > COORD_MAX || sabs(p.1) > COORD_MAX || sabs(p.2) > COORD_MAX {
                    None
                } else {
                    let pv = Vec3 { x: p.0 as i64, y: p.1 as i64, z: p.2 as i64 };
                    let n = unit3(pv);
                    let nv = Vec3 { x: n.0 as i64, y: n.1 as i64, z: n.2 as i64 };
                    Some(
                        HitRecord {
                            t: t as i64,
                            intersection: pv,
                            normal: nv,
                            material: None,
                            uv: (sphere_u_spec(nv) as i64, sphere_v_spec(nv) as i64),
                        },
                    )
                }
            }
        }
    }
}

impl Sphere {
    pub fn new(radius: Fx) -> (r: Sphere)
        ensures
            r.radius == radius,
    {
        Sphere { radius }
    }

    pub fn radius(&self) -> (r: Fx)
        ensures
            r == self.radius,
    {
        self.radius
    }

    /// Solve the ray-sphere quadratic and build the record.
    pub fn hit(&self, ray: &Ray) -> (r: Option<HitRecord>)
        requires
            sphere_wf(*self),
            ray_bounded(*ray),
        ensures
            r == sphere_hit_spec(self.radius, *ray),
            r.is_some() ==> rec_wf(r.unwrap()) && r.unwrap().material.is_none(),
    {
        let a = ray.direction().dot(ray.direction());
        let b = 2 * ray.origin().dot(ray.direction());
        proof {
            lemma_radius_sq_fits(self.radius as int);
        }
        let c = ray.origin().dot(ray.origin()) - fx_mul(self.radius, self.radius);
        if a < 1 {
            return None;
        }
        proof {
            lemma_disc_fits(a as int, b as int, c as int);
        }
        let disc: i128 = (b as i128) * (b as i128) - 4 * (a as i128) * (c as i128);
        if disc < 0 {
            return None;
        }
        let sq64 = crate::fx::isqrt_u128(disc as u128);
        proof {
            crate::fx::lemma_isqrt_unique(disc as int, sq64 as int);
            assert(sq64 <= 0x1_0000_0000_0000) by (nonlinear_arith)
                requires
                    (sq64 as int) * (sq64 as int) <= disc as int,
                    disc <= 0x1_0000_0000_0000_0000_0000_0000,
                    sq64 >= 0,
            ;
        }
        let sq: i128 = sq64 as i128;
        let t1w: i128 = tdiv_i128_pos(((-b as i128) - sq) * (SCALE as i128), 2 * (a as i128));
        let t2w: i128 = tdiv_i128_pos(((-b as i128) + sq) * (SCALE as i128), 2 * (a as i128));
        let t: i128 = if t1w > HIT_EPS as i128 {
            t1w
        } else if t2w > HIT_EPS as i128 {
            t2w
        } else {
            -1
        };
        if t < 0 || t > COORD_MAX as i128 {
            return None;
        }
        let tf: i64 = t as i64;
        let point = ray.at(tf);
        if !in_world(&point) {
            return None;
        }
        let normal = point.normalized();
        let uv = sphere_uv(&normal);
        Some(HitRecord::new(tf, point, normal, None, uv))
    }
}

/// Every component is a world coordinate.
pub fn in_world(v: &Vec3) -> (r: bool)
    ensures
        r == b3(*v, COORD_MAX as int),
{
    -COORD_MAX <= v.x && v.x <= COORD_MAX && -COORD_MAX <= v.y && v.y <= COORD_MAX && -COORD_MAX
        <= v.z && v.z <= COORD_MAX
}

/// The surface coordinates of a unit direction on the sphere.
fn sphere_uv(n: &Vec3) -> (r: (Fx, Fx))
    requires
        b3(*n, crate::vec3::UNIT_MAX as int),
    ensures
        r.0 == sphere_u_spec(*n),
        r.1 == sphere_v_spec(*n),
        0 <= r.0 <= SCALE,
        0 <= r.1 <= SCALE,
{
    let ax = if n.x < 0 {
        -n.x
    } else {
        n.x
    };
    let az = if n.z < 0 {
        -n.z
    } else {
        n.z
    };
    let dsum = ax + az;
    let u: i64 = if dsum == 0 {
        0
    } else {
        proof {
            lemma_sphere_u_fits(n.x as int, dsum as int);
        }
        let f: i64 = tdiv_i128_pos((n.x as i128) * (SCALE as i128), dsum as i128) as i64;
        if n.z >= 0 {
            (2 * SCALE + f) / 4
        } else if n.x >= 0 {
            (4 * SCALE - f) / 4
        } else {
            (-f) / 4
        }
    };
    let vraw = (SCALE + n.y) / 2;
    let v: i64 = if vraw < 0 {
        0
    } else if vraw > SCALE {
        SCALE
    } else {
        vraw
    };
    (u, v)
}

proof fn lemma_sphere_u_fits(x: int, dsum: int)
    requires
        dsum >= 1,
        sabs(x) <= dsum,
        dsum <= 2 * crate::vec3::UNIT_MAX,
    ensures
        sabs(tdiv(x * SCALE, dsum)) <= SCALE,
        0 <= (2 * SCALE + tdiv(x * SCALE, dsum)) / 4 <= SCALE,
        x >= 0 ==> 0 <= (4 * SCALE - tdiv(x * SCALE, dsum)) / 4 <= SCALE,
        x < 0 ==> 0 <= (-tdiv(x * SCALE, dsum)) / 4 <= SCALE,
{
    assert(sabs(x * SCALE) <= SCALE * dsum) by (nonlinear_arith)
        requires
            sabs(x) <= dsum,
            SCALE == 65536,
    ;
    crate::vec3::lemma_tdiv_shrinks(x * SCALE, dsum, SCALE as int);
}

proof fn lemma_radius_sq_fits(radius: int)
    by (nonlinear_arith)
    requires
        1 <= radius <= COORD_MAX as int,
    ensures
        sabs(radius) * sabs(radius) <= crate::fx::OP_MAX * SCALE,
        crate::fx::fits_op(radius),
        0 <= fx_mul_spec(radius, radius) <= 0x4000_0000_0000,
{
    assert(0 <= (radius * radius) / (SCALE as int) <= 0x4000_0000_0000) by {
        assert(radius * radius <= 0x4000_0000_0000 * 65536);
        assert(radius * radius >= 0);
    }
}

proof fn lemma_disc_fits(a: int, b: int, c: int)
    by (nonlinear_arith)
    requires
        sabs(a) <= 0x4000_0000_0000,
        sabs(b) <= 0x8000_0000_0000,
        sabs(c) <= 0x8000_0000_0000,
    ensures
        sabs(b * b) <= 0x8000_0000_0000 * 0x8000_0000_0000,
        sabs(4 * a * c) <= 4 * 0x4000_0000_0000 * 0x8000_0000_0000,
        b * b - 4 * a * c <= 0x1_0000_0000_0000_0000_0000_0000,
{
}

/// A rectangle in the local plane of the first two axes, centred at the
/// origin.
#[derive(Clone, Copy, Debug, PartialEq, Eq, Structural)]
pub struct Rectangle {
    pub width: Fx,
    pub height: Fx,
}

/// Both extents are at least two grid steps and world-sized.
pub open spec fn rectangle_wf(r: Rectangle) -> bool {
    2 <= r.width <= COORD_MAX && 2 <= r.height <= COORD_MAX
}

/// The intersection of a ray with the rectangle: the parameter where the
/// ray meets the plane, rejected when too close, behind, or outside the
/// half extents; the surface coordinates grow across the extents.
pub open spec fn rectangle_hit_spec(width: Fx, height: Fx, ray: Ray) -> Option<HitRecord> {
    if ray.direction.z == 0 {
        None
    } else {
        let t = fx_div_spec(-ray.origin.z as int, ray.direction.z as int);
        if t <= HIT_EPS || t > COORD_MAX {
            None
        } else {
            let hw = (width / 2) as int;
            let hh = (height / 2) as int;
            let x = ray.origin.x + fx_mul_spec(ray.direction.x as int, t);
            let y = ray.origin.y + fx_mul_spec(ray.direction.y as int, t);
            if x < -hw || x > hw || y < -hh || y > hh {
                None
            } else {
                let u = fx_div_spec(x + hw, 2 * hw);
                let v = fx_div_spec(y + hh, 2 * hh);
                Some(
                    HitRecord {
                        t: t as i64,
                        intersection: Vec3 { x: x as i64, y: y as i64, z: 0 },
                        normal: Vec3 { x: 0, y: 0, z: SCALE },
                        material: None,
                        uv: (u as i64, v as i64),
                    },
                )
            }
        }
    }
}

impl Rectangle {
    pub fn new(width: Fx, height: Fx) -> (r: Rectangle)
        ensures
            r.width == width,
            r.height == height,
    {
        Rectangle { width, height }
    }

    pub fn width(&self) -> (r: Fx)
        ensures
            r == self.width,
    {
        self.width
    }

    pub fn height(&self) -> (r: Fx)
        ensures
            r == self.height,
    {
        self.height
    }

    /// Meet the plane, then test the half extents.
    pub fn hit(&self, ray: &Ray) -> (r: Option<HitRecord>)
        requires
            rectangle_wf(*self),
            ray_bounded(*ray),
        ensures
            r == rectangle_hit_spec(self.width, self.height, *ray),
            r.is_some() ==> rec_wf(r.unwrap()) && r.unwrap().material.is_none(),
    {
        if ray.direction.z == 0 {
            return None;
        }
        let t = fx_div(-ray.origin.z, ray.direction.z);
        if t <= HIT_EPS || t > COORD_MAX {
            return None;
        }
        let hw = self.width / 2;
        let hh = self.height / 2;
        proof {
            lemma_rect_fits(*ray, t as int, hw as int, hh as int);
        }
        let x = ray.origin.x + fx_mul(ray.direction.x, t);
        let y = ray.origin.y + fx_mul(ray.direction.y, t);
        if x < -hw || x > hw || y < -hh || y > hh {
            return None;
        }
        let u = fx_div(x + hw, 2 * hw);
        let v = fx_div(y + hh, 2 * hh);
        let point = Vec3::new(x, y, 0);
        let normal = Vec3::new(0, 0, SCALE);
        Some(HitRecord::new(t, point, normal, None, (u, v)))
    }
}

proof fn lemma_rect_fits(ray: Ray, t: int, hw: int, hh: int)
    requires
        ray_bounded(ray),
        0 <= t <= COORD_MAX as int,
        1 <= hw <= COORD_MAX as int,
        1 <= hh <= COORD_MAX as int,
    ensures
        sabs(ray.direction.x as int) * sabs(t) <= crate::fx::OP_MAX * SCALE,
        sabs(ray.direction.y as int) * sabs(t) <= crate::fx::OP_MAX * SCALE,
        sabs(fx_mul_spec(ray.direction.x as int, t)) <= 0x1000_0000_0000,
        sabs(fx_mul_spec(ray.direction.y as int, t)) <= 0x1000_0000_0000,
        forall|x: int|
            sabs(x) <= hw ==> (crate::fx::fits_op(x + hw) && sabs(x + hw) * SCALE <= crate::fx::OP_MAX
                * sabs(2 * hw) && 0 <= #[trigger] fx_div_spec(x + hw, 2 * hw) <= SCALE),
        forall|y: int|
            sabs(y) <= hh ==> (crate::fx::fits_op(y + hh) && sabs(y + hh) * SCALE <= crate::fx::OP_MAX
                * sabs(2 * hh) && 0 <= #[trigger] fx_div_spec(y + hh, 2 * hh) <= SCALE),
{
    lemma_coordt_fits(ray.direction.x as int, t);
    lemma_coordt_fits(ray.direction.y as int, t);
    assert forall|x: int| sabs(x) <= hw implies (crate::fx::fits_op(x + hw) && sabs(x + hw) * SCALE
        <= crate::fx::OP_MAX * sabs(2 * hw) && 0 <= #[trigger] fx_div_spec(x + hw, 2 * hw)
        <= SCALE) by {
        lemma_uv_in_unit(x, hw);
    }
    assert forall|y: int| sabs(y) <= hh implies (crate::fx::fits_op(y + hh) && sabs(y + hh) * SCALE
        <= crate::fx::OP_MAX * sabs(2 * hh) && 0 <= #[trigger] fx_div_spec(y + hh, 2 * hh)
        <= SCALE) by {
        lemma_uv_in_unit(y, hh);
    }
}

proof fn lemma_coordt_fits(d: int, t: int)
    by (nonlinear_arith)
    requires
        sabs(d) <= COORD_MAX as int,
        sabs(t) <= COORD_MAX as int,
    ensures
        sabs(d) * sabs(t) <= crate::fx::OP_MAX * SCALE,
        sabs(fx_mul_spec(d, t)) <= 0x1000_0000_0000,
{
    assert(sabs(d * t) <= 0x1000_0000_0000 * 65536);
    assert(sabs(tdiv(d * t, 65536)) <= 0x1000_0000_0000) by {
        if d * t >= 0 {
            assert((d * t) / 65536 <= 0x1000_0000_0000);
            assert((d * t) / 65536 >= 0);
        } else {
            assert((-(d * t)) / 65536 <= 0x1000_0000_0000);
            assert((-(d * t)) / 65536 >= 0);
        }
    }
}

/// An in-extent coordinate maps into the unit interval.
proof fn lemma_uv_in_unit(x: int, hw: int)
    by (nonlinear_arith)
    requires
        1 <= hw <= COORD_MAX as int,
        sabs(x) <= hw,
    ensures
        crate::fx::fits_op(x + hw),
        sabs(x + hw) * SCALE <= crate::fx::OP_MAX * sabs(2 * hw),
        0 <= fx_div_spec(x + hw, 2 * hw) <= SCALE,
{
    assert(0 <= x + hw <= 2 * hw);
    assert(((x + hw) * 65536) / (2 * hw) <= 65536) by {
        assert((x + hw) * 65536 <= 65536 * (2 * hw));
    }
    assert(((x + hw) * 65536) / (2 * hw) >= 0);
}


/// A geometry placed under a transform: rays are pulled into the local
/// space by the inverse, and hits pushed back by the forward transform.
#[derive(Debug)]
pub struct TransformedGeometry {
    pub geometry: std::sync::Arc<crate::scene::Object>,
    pub transform: crate::mat4::Mat4Cached,
}

impl TransformedGeometry {
    pub fn new(
        geometry: std::sync::Arc<crate::scene::Object>,
        transform: crate::mat4::Mat4Cached,
    ) -> (r: TransformedGeometry)
        ensures
            r.geometry == geometry,
            r.transform == transform,
    {
        TransformedGeometry { geometry, transform }
    }

    pub fn geometry(&self) -> (r: &std::sync::Arc<crate::scene::Object>)
        ensures
            *r == self.geometry,
    {
        &self.geometry
    }

    pub fn transform(&self) -> (r: &crate::mat4::Mat4Cached)
        ensures
            *r == self.transform,
    {
        &self.transform
    }
}

/// A box of the given extents, built as six placed rectangles around the
/// local origin, meant to be gathered under their own hierarchy node.
#[derive(Clone, Copy, Debug)]
pub struct Cube;

impl Cube {
    pub fn new(width: Fx, height: Fx, depth: Fx) -> (r: Vec<crate::scene::Object>)
        requires
            2 <= width <= crate::mat4::MAT_MAX,
            2 <= height <= crate::mat4::MAT_MAX,
            2 <= depth <= crate::mat4::MAT_MAX,
        ensures
            r.len() == 6,
            forall|i: int| 0 <= i < 6 ==> crate::scene::object_wf(#[trigger] r@[i]),
    {
        let half_w = width / 2;
        let half_h = height / 2;
        let half_d = depth / 2;
        let mut faces: Vec<crate::scene::Object> = Vec::new();
        // front and back
        let front = crate::mat4::Mat4::translation(Vec3::new(0, 0, half_d));
        let back = crate::mat4::Mat4::translation(Vec3::new(0, 0, -half_d)).multiplied(
            &crate::mat4::Mat4::rotation(0, -SCALE, Vec3::new(0, SCALE, 0)),
        );
        // left and right: quarter turns about the vertical axis
        let left = crate::mat4::Mat4::translation(Vec3::new(-half_w, 0, 0)).multiplied(
            &crate::mat4::Mat4::rotation(-SCALE, 0, Vec3::new(0, SCALE, 0)),
        );
        let right = crate::mat4::Mat4::translation(Vec3::new(half_w, 0, 0)).multiplied(
            &crate::mat4::Mat4::rotation(SCALE, 0, Vec3::new(0, SCALE, 0)),
        );
        // top and bottom: quarter turns about the horizontal axis
        let top = crate::mat4::Mat4::translation(Vec3::new(0, half_h, 0)).multiplied(
            &crate::mat4::Mat4::rotation(-SCALE, 0, Vec3::new(SCALE, 0, 0)),
        );
        let bottom = crate::mat4::Mat4::translation(Vec3::new(0, -half_h, 0)).multiplied(
            &crate::mat4::Mat4::rotation(SCALE, 0, Vec3::new(SCALE, 0, 0)),
        );
        faces.push(placed_rect(width, height, front));
        faces.push(placed_rect(depth, height, left));
        faces.push(placed_rect(width, height, back));
        faces.push(placed_rect(depth, height, right));
        faces.push(placed_rect(width, depth, top));
        faces.push(placed_rect(width, depth, bottom));
        faces
    }
}

/// A rectangle of the given extents under a placement, as a scene object.
fn placed_rect(width: Fx, height: Fx, transform: crate::mat4::Mat4) -> (r: crate::scene::Object)
    requires
        2 <= width <= COORD_MAX,
        2 <= height <= COORD_MAX,
    ensures
        crate::scene::object_wf(r),
{
    let rect = std::sync::Arc::new(
        crate::scene::Object::Quad(Rectangle::new(width, height)),
    );
    proof {
        assert(crate::scene::object_wf(*rect));
    }
    crate::scene::Object::Placed(
        TransformedGeometry::new(rect, crate::mat4::Mat4Cached::new(transform)),
    )
}


/// A ray standing a whole number of units from a sphere of whole-unit
/// radius and aimed straight at its centre hits at exactly the distance to
/// the surface: on the axis the whole quadratic collapses without any
/// rounding.
pub proof fn lemma_head_on_hit_distance(d: Fx, radius: Fx)
    requires
        d % SCALE == 0,
        radius % SCALE == 0,
        SCALE <= radius,
        radius + SCALE <= d,
        d <= 0x100_0000,
    ensures
        ({
            let ray = Ray {
                origin: Vec3 { x: d, y: 0, z: 0 },
                direction: Vec3 { x: (-SCALE) as i64, y: 0, z: 0 },
            };
            sphere_hit_spec(radius, ray) matches Some(h) && h.t == d - radius
        }),
{
    let ray = Ray {
        origin: Vec3 { x: d, y: 0, z: 0 },
        direction: Vec3 { x: (-SCALE) as i64, y: 0, z: 0 },
    };
    let s = SCALE as int;
    let a = dot3(ray.direction, ray.direction);
    let b = 2 * dot3(ray.origin, ray.direction);
    let c = dot3(ray.origin, ray.origin) - fx_mul_spec(radius as int, radius as int);
    assert((-SCALE) * (-SCALE) + 0 * 0 + 0 * 0 == s * s && d * (-SCALE) + 0 * 0 + 0 * 0 == (-d)
        * s && d * d + 0 * 0 + 0 * 0 == d * d && radius * radius == radius * radius)
        by (nonlinear_arith)
        requires
            s == SCALE as int,
    ;
    crate::fx::lemma_tdiv_mul_cancel(s, s);
    crate::fx::lemma_tdiv_mul_cancel(-(d as int), s);
    assert(a == s) by {
        assert(s * s == s * s);
    }
    assert(b == -2 * d);
    let du = d as int / s;
    let ru = radius as int / s;
    assert(d == du * s && radius == ru * s && du >= ru + 1 && ru >= 1) by (nonlinear_arith)
        requires
            d % SCALE == 0,
            radius % SCALE == 0,
            du == d as int / s,
            ru == radius as int / s,
            s == SCALE as int,
            SCALE == 65536,
            SCALE <= radius,
            radius + SCALE <= d,
    ;
    assert(d * d == (du * du * s) * s && radius * radius == (ru * ru * s) * s) by (nonlinear_arith)
        requires
            d == du * s,
            radius == ru * s,
    ;
    crate::fx::lemma_tdiv_mul_cancel(du * du * s, s);
    crate::fx::lemma_tdiv_mul_cancel(ru * ru * s, s);
    assert(c == du * du * s - ru * ru * s);
    let disc = b * b - 4 * a * c;
    assert(disc == (2 * ru * s) * (2 * ru * s)) by (nonlinear_arith)
        requires
            disc == b * b - 4 * a * c,
            b == -2 * d,
            a == s,
            c == du * du * s - ru * ru * s,
            d == du * s,
            radius == ru * s,
    ;
    assert(crate::fx::is_isqrt(disc, 2 * ru * s)) by (nonlinear_arith)
        requires
            disc == (2 * ru * s) * (2 * ru * s),
            ru >= 1,
            s == 65536,
    ;
    crate::fx::lemma_isqrt_unique(disc, 2 * ru * s);
    let sq = crate::fx::sqrt_floor(disc);
    assert(sq == 2 * radius);
    assert((-b - sq) * SCALE == (d - radius) * (2 * a)) by (nonlinear_arith)
        requires
            b == -2 * d,
            sq == 2 * radius,
            a == s,
            s == SCALE as int,
    ;
    crate::fx::lemma_tdiv_mul_cancel(d - radius, 2 * a);
    let t1 = tdiv((-b - sq) * SCALE, 2 * a);
    assert(t1 == d - radius);
    assert(t1 > HIT_EPS && t1 <= COORD_MAX);
    let p = ray_at_spec(ray, t1);
    assert(fx_mul_spec((-SCALE) as int, t1) == -t1) by {
        assert((-SCALE) * t1 == (-t1) * s) by (nonlinear_arith)
            requires
                s == SCALE as int,
        ;
        crate::fx::lemma_tdiv_mul_cancel(-t1, s);
    }
    assert(fx_mul_spec(0, t1) == 0) by {
        assert(0 * t1 == 0 * s) by (nonlinear_arith);
        crate::fx::lemma_tdiv_mul_cancel(0, s);
    }
    assert(p.0 == radius && p.1 == 0 && p.2 == 0);
}

} // verus!

//! Rays and intersection records.

use vstd::prelude::*;

use std::sync::Arc;

use crate::fx::fx_mul;
use crate::fx::fx_mul_spec;
use crate::fx::sabs;
use crate::fx::Fx;
use crate::fx::COORD_MAX;
use crate::material::Material;
use crate::vec3::b3;
use crate::vec3::Vec3;

verus! {

/// An origin and a direction; the direction need not be unit length.
#[derive(Clone, Copy, Debug, PartialEq, Eq, Structural)]
pub struct Ray {
    pub origin: Vec3,
    pub direction: Vec3,
}

/// The point a parameter along a ray: origin plus the scaled direction,
/// componentwise.
pub open spec fn ray_at_spec(r: Ray, t: int) -> (int, int, int) {
    (
        r.origin.x + fx_mul_spec(r.direction.x as int, t),
        r.origin.y + fx_mul_spec(r.direction.y as int, t),
        r.origin.z + fx_mul_spec(r.direction.z as int, t),
    )
}

/// Both endpoints of a ray are world-sized.
pub open spec fn ray_bounded(r: Ray) -> bool {
    b3(r.origin, COORD_MAX as int) && b3(r.direction, COORD_MAX as int)
}

impl Ray {
    pub fn new(origin: Vec3, direction: Vec3) -> (r: Ray)
        ensures
            r == (Ray { origin, direction }),
    {
        Ray { origin, direction }
    }

    pub fn origin(&self) -> (r: &Vec3)
        ensures
            *r == self.origin,
    {
        &self.origin
    }

    pub fn direction(&self) -> (r: &Vec3)
        ensures
            *r == self.direction,
    {
        &self.direction
    }

    /// The point the given parameter along this ray.
    pub fn at(&self, t: Fx) -> (r: Vec3)
        requires
            ray_bounded(*self),
            sabs(t as int) <= COORD_MAX as int,
        ensures
            (r.x as int, r.y as int, r.z as int) == ray_at_spec(*self, t as int),
            b3(r, 0x2000_0000_0000),
    {
        proof {
            lemma_at_fits(*self, t as int);
        }
        Vec3::new(
            self.origin.x + fx_mul(self.direction.x, t),
            self.origin.y + fx_mul(self.direction.y, t),
            self.origin.z + fx_mul(self.direction.z, t),
        )
    }
}

proof fn lemma_at_fits(r: Ray, t: int)
    ensures
        ray_bounded(r) && sabs(t) <= COORD_MAX as int ==> {
            &&& sabs(r.direction.x as int) * sabs(t) <= crate::fx::OP_MAX * crate::fx::SCALE
            &&& sabs(r.direction.y as int) * sabs(t) <= crate::fx::OP_MAX * crate::fx::SCALE
            &&& sabs(r.direction.z as int) * sabs(t) <= crate::fx::OP_MAX * crate::fx::SCALE
            &&& sabs(fx_mul_spec(r.direction.x as int, t)) <= 0x1000_0000_0000
            &&& sabs(fx_mul_spec(r.direction.y as int, t)) <= 0x1000_0000_0000
            &&& sabs(fx_mul_spec(r.direction.z as int, t)) <= 0x1000_0000_0000
        },
{
    if ray_bounded(r) && sabs(t) <= COORD_MAX as int {
        lemma_coord_mul_fits(r.direction.x as int, t);
        lemma_coord_mul_fits(r.direction.y as int, t);
        lemma_coord_mul_fits(r.direction.z as int, t);
    }
}

proof fn lemma_coord_mul_fits(a: int, t: int)
    requires
        sabs(a) <= COORD_MAX as int,
        sabs(t) <= COORD_MAX as int,
    ensures
        sabs(a) * sabs(t) <= crate::fx::OP_MAX * crate::fx::SCALE,
        sabs(fx_mul_spec(a, t)) <= 0x1000_0000_0000,
{
    assert(sabs(a) * sabs(t) <= 0x4000_0000 * 0x4000_0000 && sabs(a * t) <= 0x1000_0000_0000 * 65536)
        by (nonlinear_arith)
        requires
            sabs(a) <= 0x4000_0000,
            sabs(t) <= 0x4000_0000,
    ;
    crate::vec3::lemma_tdiv_shrinks(a * t, crate::fx::SCALE as int, 0x1000_0000_0000);
}

/// What an intersection reports: the ray parameter, the point, the surface
/// normal, the surface coordinates and the material met there.
#[derive(Debug)]
pub struct HitRecord {
    pub t: Fx,
    pub intersection: Vec3,
    pub normal: Vec3,
    pub material: Option<Arc<Material>>,
    pub uv: (Fx, Fx),
}

impl HitRecord {
    pub fn new(
        t: Fx,
        intersection: Vec3,
        normal: Vec3,
        material: Option<Arc<Material>>,
        uv: (Fx, Fx),
    ) -> (r: HitRecord)
        ensures
            r.t == t,
            r.intersection == intersection,
            r.normal == normal,
            r.material == material,
            r.uv == uv,
    {
        HitRecord { t, intersection, normal, material, uv }
    }

    pub fn t(&self) -> (r: Fx)
        ensures
            r == self.t,
    {
        self.t
    }

    pub fn intersection(&self) -> (r: &Vec3)
        ensures
            *r == self.intersection,
    {
        &self.intersection
    }

    pub fn normal(&self) -> (r: &Vec3)
        ensures
            *r == self.normal,
    {
        &self.normal
    }

    pub fn material(&self) -> (r: &Option<Arc<Material>>)
        ensures
            *r == self.material,
    {
        &self.material
    }

    pub fn uv(&self) -> (r: &(Fx, Fx))
        ensures
            *r == self.uv,
    {
        &self.uv
    }

    /// The same record carrying the given material instead.
    pub fn with_material(self, material: Option<Arc<Material>>) -> (r: HitRecord)
        ensures
            r.t == self.t,
            r.intersection == self.intersection,
            r.normal == self.normal,
            r.material == material,
            r.uv == self.uv,
    {
        HitRecord { material, ..self }
    }
}


/// A record produced by an intersection routine: the parameter is
/// nonnegative, the point is world-sized and the normal direction-sized.
pub open spec fn rec_wf(r: HitRecord) -> bool {
    &&& 0 <= r.t <= COORD_MAX
    &&& b3(r.intersection, COORD_MAX as int)
    &&& b3(r.normal, crate::vec3::UNIT_MAX as int)
    &&& sabs(r.uv.0 as int) <= COORD_MAX as int
    &&& sabs(r.uv.1 as int) <= COORD_MAX as int
}

} // verus!

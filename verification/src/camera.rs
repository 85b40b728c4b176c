//! The perspective camera: an eye, a view direction and a film plane, with
//! an optional thin lens for depth of field.

use vstd::prelude::*;

use crate::fx::fx_mul;
use crate::fx::fx_mul_spec;
use crate::fx::sabs;
use crate::fx::Fx;
use crate::fx::COORD_MAX;
use crate::fx::SCALE;
use crate::ray::ray_bounded;
use crate::ray::Ray;
use crate::rng::Lcg;
use crate::util::randomInUnitDisk;
use crate::vec3::b3;
use crate::vec3::Vec3;
use crate::vec3::UNIT_MAX;

verus! {

/// Largest magnitude of an eye or target coordinate: 2048 units.
pub const EYE_MAX: i64 = 0x800_0000;

/// Largest focus distance: 16 units.
pub const FOCUS_MAX: i64 = 0x10_0000;

/// The film-plane frame stays within this bound per component.
pub open spec fn camera_wf(c: PerspectiveCamera) -> bool {
    &&& b3(c.eye, EYE_MAX as int)
    &&& b3(c.lowerLeft, 0x1000_0000)
    &&& b3(c.horizontal, 0x100_0000)
    &&& b3(c.vertical, 0x100_0000)
    &&& 0 <= c.lensRadius <= SCALE
}


/// The derived film-plane frame: the normalized basis from the view
/// direction and the up hint, spanned by the field of view and the aspect,
/// pushed out to the focus plane.
pub open spec fn camera_w(eye: Vec3, center: Vec3) -> Vec3 {
    crate::vec3::unit_vec(crate::vec3::sub_vec(eye, center))
}

pub open spec fn camera_u(eye: Vec3, center: Vec3, up: Vec3) -> Vec3 {
    crate::vec3::unit_vec(
        crate::vec3::cross_vec(crate::vec3::unit_vec(up), camera_w(eye, center)),
    )
}

pub open spec fn camera_v(eye: Vec3, center: Vec3, up: Vec3) -> Vec3 {
    crate::vec3::unit_vec(
        crate::vec3::cross_vec(camera_w(eye, center), camera_u(eye, center, up)),
    )
}

pub open spec fn camera_width(fov: Fx, aspect: Fx) -> Fx {
    fx_mul_spec(aspect as int, (2 * fov) as int) as i64
}

pub open spec fn camera_horizontal(eye: Vec3, center: Vec3, up: Vec3, fov: Fx, aspect: Fx, focusDistance: Fx) -> Vec3 {
    crate::vec3::scale_vec(
        crate::vec3::scale_vec(camera_u(eye, center, up), camera_width(fov, aspect)),
        focusDistance,
    )
}

pub open spec fn camera_vertical(eye: Vec3, center: Vec3, up: Vec3, fov: Fx, focusDistance: Fx) -> Vec3 {
    crate::vec3::scale_vec(
        crate::vec3::scale_vec(camera_v(eye, center, up), (2 * fov) as i64),
        focusDistance,
    )
}

pub open spec fn camera_lower_left(eye: Vec3, center: Vec3, up: Vec3, fov: Fx, aspect: Fx, focusDistance: Fx) -> Vec3 {
    crate::vec3::sub_vec(
        crate::vec3::sub_vec(
            crate::vec3::sub_vec(
                eye,
                crate::vec3::div_vec(camera_horizontal(eye, center, up, fov, aspect, focusDistance), (2 * SCALE) as i64),
            ),
            crate::vec3::div_vec(camera_vertical(eye, center, up, fov, focusDistance), (2 * SCALE) as i64),
        ),
        crate::vec3::scale_vec(camera_w(eye, center), focusDistance),
    )
}

/// The point of the focus plane behind film coordinates `u`, `v`, relative
/// to an origin.
#[verifier::opaque]
pub open spec fn film_target(c: PerspectiveCamera, u: Fx, v: Fx, origin: Vec3) -> Vec3 {
    crate::vec3::sub_vec(
        crate::vec3::add_vec(
            crate::vec3::add_vec(c.lowerLeft, crate::vec3::scale_vec(c.horizontal, u)),
            crate::vec3::scale_vec(c.vertical, v),
        ),
        origin,
    )
}

/// The ray a camera casts through film coordinates: from the eye with a
/// pinhole, from a lens-disk point otherwise; the direction is the
/// normalized vector to the film target, and only a lens draws randomness.
#[verifier::opaque]
pub open spec fn camera_ray_spec(c: PerspectiveCamera, u: Fx, v: Fx, s: u64) -> (Ray, u64) {
    if c.lensRadius == 0 {
        (
            Ray { origin: c.eye, direction: crate::vec3::unit_vec(film_target(c, u, v, c.eye)) },
            s,
        )
    } else {
        let (d, s1) = crate::util::unit_disk_spec(s);
        let rd = crate::vec3::scale_vec(d, c.lensRadius);
        let offset = (fx_mul_spec(rd.x as int, u as int) + fx_mul_spec(rd.y as int, v as int)) as i64;
        let origin = Vec3 {
            x: (c.eye.x + offset) as i64,
            y: (c.eye.y + offset) as i64,
            z: (c.eye.z + offset) as i64,
        };
        (
            Ray { origin, direction: crate::vec3::unit_vec(film_target(c, u, v, origin)) },
            s1,
        )
    }
}

#[derive(Clone, Copy, Debug)]
#[allow(non_snake_case)]
pub struct PerspectiveCamera {
    pub eye: Vec3,
    pub center: Vec3,
    pub up: Vec3,
    pub fov: Fx,
    pub aspect: Fx,
    pub focusDistance: Fx,
    pub lensRadius: Fx,
    pub lowerLeft: Vec3,
    pub horizontal: Vec3,
    pub vertical: Vec3,
}

impl PerspectiveCamera {
    /// Set up the film plane from the eye, the look target and the up
    /// direction. The field of view is given as the tangent of half the
    /// vertical angle, which the caller computes.
    #[allow(non_snake_case)]
    #[verifier::rlimit(100)]
    pub fn new(
        eye: Vec3,
        center: Vec3,
        up: Vec3,
        fov: Fx,
        aspect: Fx,
        focusDistance: Fx,
        lensRadius: Fx,
    ) -> (r: PerspectiveCamera)
        requires
            b3(eye, EYE_MAX as int),
            b3(center, EYE_MAX as int),
            b3(up, COORD_MAX as int),
            0 < fov <= SCALE,
            0 < aspect <= 2 * SCALE,
            0 < focusDistance <= FOCUS_MAX,
            0 <= lensRadius <= SCALE,
        ensures
            camera_wf(r),
            r.eye == eye,
            r.center == center,
            r.up == crate::vec3::unit_vec(up),
            r.fov == fov,
            r.aspect == aspect,
            r.focusDistance == focusDistance,
            r.lensRadius == lensRadius,
            r.horizontal == camera_horizontal(eye, center, up, fov, aspect, focusDistance),
            r.vertical == camera_vertical(eye, center, up, fov, focusDistance),
            r.lowerLeft == camera_lower_left(eye, center, up, fov, aspect, focusDistance),
    {
        let up = up.normalized();
        let height = 2 * fov;
        proof {
            lemma_frame_fits(aspect as int, height as int);
        }
        let width = fx_mul(aspect, height);
        let w = eye.subbed(&center).normalized();
        let u = up.cross(&w).normalized();
        let v = w.cross(&u).normalized();
        proof {
            lemma_span_fits(width as int, height as int, focusDistance as int);
        }
        let horizontal_frame = u.scaled(width);
        proof {
            assert(b3(horizontal_frame, 0x10_0000));
        }
        let horizontal = horizontal_frame.scaled(focusDistance);
        proof {
            assert(b3(horizontal, 0x100_0000));
        }
        let vertical_frame = v.scaled(height);
        proof {
            assert(b3(vertical_frame, 0x10_0000));
        }
        let vertical = vertical_frame.scaled(focusDistance);
        proof {
            assert(b3(vertical, 0x100_0000));
        }
        let wf = w.scaled(focusDistance);
        proof {
            assert(b3(wf, 0x40_0000));
        }
        let half_h = horizontal.divided(2 * SCALE);
        let half_v = vertical.divided(2 * SCALE);
        proof {
            crate::fx::lemma_div_unit_shrinks(horizontal.x as int, 2 * SCALE as int);
            crate::fx::lemma_div_unit_shrinks(horizontal.y as int, 2 * SCALE as int);
            crate::fx::lemma_div_unit_shrinks(horizontal.z as int, 2 * SCALE as int);
            crate::fx::lemma_div_unit_shrinks(vertical.x as int, 2 * SCALE as int);
            crate::fx::lemma_div_unit_shrinks(vertical.y as int, 2 * SCALE as int);
            crate::fx::lemma_div_unit_shrinks(vertical.z as int, 2 * SCALE as int);
        }
        let lowerLeft = eye.subbed(&half_h).subbed(&half_v).subbed(&wf);
        PerspectiveCamera {
            eye,
            center,
            up,
            fov,
            aspect,
            focusDistance,
            lensRadius,
            lowerLeft,
            horizontal,
            vertical,
        }
    }

    pub fn eye(&self) -> (r: &Vec3)
        ensures
            *r == self.eye,
    {
        &self.eye
    }

    pub fn center(&self) -> (r: &Vec3)
        ensures
            *r == self.center,
    {
        &self.center
    }

    pub fn up(&self) -> (r: &Vec3)
        ensures
            *r == self.up,
    {
        &self.up
    }

    pub fn fov(&self) -> (r: Fx)
        ensures
            r == self.fov,
    {
        self.fov
    }

    pub fn aspect(&self) -> (r: Fx)
        ensures
            r == self.aspect,
    {
        self.aspect
    }

    #[allow(non_snake_case)]
    pub fn focusDistance(&self) -> (r: Fx)
        ensures
            r == self.focusDistance,
    {
        self.focusDistance
    }

    #[allow(non_snake_case)]
    pub fn lensRadius(&self) -> (r: Fx)
        ensures
            r == self.lensRadius,
    {
        self.lensRadius
    }

    /// The ray through film coordinates `u`, `v` in the unit square: from
    /// the eye, or from a point jittered on the lens disk when the lens has
    /// a radius, towards the matching point of the focus plane; the
    /// direction comes back normalized.
    #[verifier::rlimit(100)]
    #[verifier::spinoff_prover]
    pub fn ray(&self, u: Fx, v: Fx, generator: &mut Lcg) -> (r: Ray)
        requires
            camera_wf(*self),
            0 <= u <= SCALE,
            0 <= v <= SCALE,
        ensures
            (r, final(generator).state) == camera_ray_spec(*self, u, v, old(generator).state),
            ray_bounded(r),
            b3(r.direction, UNIT_MAX as int),
            self.lensRadius == 0 ==> r.origin == self.eye && r.direction == crate::vec3::unit_vec(
                film_target(*self, u, v, self.eye),
            ),
    {
        proof {
            lemma_film_point_fits(*self, u as int, v as int);
        }
        let hu = self.horizontal.scaled(u);
        let vv = self.vertical.scaled(v);
        if self.lensRadius == 0 {
            let target = self.lowerLeft.added(&hu).added(&vv).subbed(&self.eye);
            proof {
                assert(target == film_target(*self, u, v, self.eye)) by {
                    reveal(film_target);
                }
            }
            let direction = target.normalized();
            let out = Ray::new(self.eye, direction);
            proof {
                assert((out, generator.state) == camera_ray_spec(
                    *self,
                    u,
                    v,
                    old(generator).state,
                )) by {
                    reveal(camera_ray_spec);
                }
            }
            out
        } else {
            let rd = randomInUnitDisk(generator).scaled(self.lensRadius);
            proof {
                lemma_offset_fits(rd, u as int, v as int);
            }
            let offset = fx_mul(rd.x, u) + fx_mul(rd.y, v);
            let origin = Vec3::new(self.eye.x + offset, self.eye.y + offset, self.eye.z + offset);
            let target = self.lowerLeft.added(&hu).added(&vv).subbed(&origin);
            proof {
                assert(target == film_target(*self, u, v, origin)) by {
                    reveal(film_target);
                }
            }
            let direction = target.normalized();
            let out = Ray::new(origin, direction);
            proof {
                assert((out, generator.state) == camera_ray_spec(
                    *self,
                    u,
                    v,
                    old(generator).state,
                )) by {
                    reveal(camera_ray_spec);
                }
            }
            out
        }
    }
}

proof fn lemma_frame_fits(aspect: int, height: int)
    by (nonlinear_arith)
    requires
        0 < aspect <= 2 * SCALE,
        0 < height <= 2 * SCALE,
    ensures
        sabs(aspect) <= COORD_MAX as int,
        sabs(height) <= COORD_MAX as int,
        sabs(aspect) * sabs(height) <= crate::fx::OP_MAX * SCALE,
        crate::fx::fits_op(aspect),
        crate::fx::fits_op(height),
        0 <= fx_mul_spec(aspect, height) <= 4 * SCALE,
{
    assert(0 <= (aspect * height) / (SCALE as int) <= 4 * SCALE) by {
        assert(aspect * height <= 4 * SCALE * SCALE);
        assert(aspect * height >= 0);
    }
}

/// The spans of the film plane stay bounded: a few units of frame scaled
/// by a bounded focus distance.
proof fn lemma_span_fits(width: int, height: int, focus: int)
    requires
        0 <= width <= 4 * SCALE,
        0 <= height <= 4 * SCALE,
        0 < focus <= FOCUS_MAX as int,
    ensures
        forall|c: int|
            sabs(c) <= UNIT_MAX ==> sabs(#[trigger] fx_mul_spec(c, width)) <= 0x10_0000,
        forall|c: int|
            sabs(c) <= UNIT_MAX ==> sabs(#[trigger] fx_mul_spec(c, height)) <= 0x10_0000,
        forall|c: int|
            sabs(c) <= 0x10_0000 ==> sabs(#[trigger] fx_mul_spec(c, focus)) <= 0x100_0000,
        forall|c: int|
            sabs(c) <= UNIT_MAX ==> sabs(#[trigger] fx_mul_spec(c, focus)) <= 0x40_0000,
{
    assert forall|c: int| sabs(c) <= UNIT_MAX implies (sabs(fx_mul_spec(c, width)) <= 0x10_0000
        && sabs(fx_mul_spec(c, height)) <= 0x10_0000) by {
        assert(sabs(c * width) <= 0x10_0000 * 65536 && sabs(c * height) <= 0x10_0000 * 65536)
            by (nonlinear_arith)
            requires
                sabs(c) <= 0x4_0000,
                0 <= width <= 4 * SCALE,
                0 <= height <= 4 * SCALE,
                SCALE == 65536,
                UNIT_MAX == 0x4_0000,
        ;
        crate::vec3::lemma_tdiv_shrinks(c * width, SCALE as int, 0x10_0000);
        crate::vec3::lemma_tdiv_shrinks(c * height, SCALE as int, 0x10_0000);
    }
    assert forall|c: int| sabs(c) <= 0x10_0000 implies sabs(#[trigger] fx_mul_spec(c, focus))
        <= 0x100_0000 by {
        assert(sabs(c * focus) <= 0x100_0000 * 65536) by (nonlinear_arith)
            requires
                sabs(c) <= 0x10_0000,
                0 < focus <= 0x10_0000,
        ;
        crate::vec3::lemma_tdiv_shrinks(c * focus, SCALE as int, 0x100_0000);
    }
    assert forall|c: int| sabs(c) <= UNIT_MAX implies sabs(#[trigger] fx_mul_spec(c, focus))
        <= 0x40_0000 by {
        assert(sabs(c * focus) <= 0x40_0000 * 65536) by (nonlinear_arith)
            requires
                sabs(c) <= 0x4_0000,
                0 < focus <= 0x10_0000,
                UNIT_MAX == 0x4_0000,
        ;
        crate::vec3::lemma_tdiv_shrinks(c * focus, SCALE as int, 0x40_0000);
    }
}

/// A film point and the vectors reaching it stay in world range.
proof fn lemma_film_point_fits(c: PerspectiveCamera, u: int, v: int)
    requires
        camera_wf(c),
        0 <= u <= SCALE,
        0 <= v <= SCALE,
    ensures
        forall|h: int|
            sabs(h) <= 0x100_0000 ==> (sabs(#[trigger] fx_mul_spec(h, u)) <= 0x100_0000 && sabs(
                fx_mul_spec(h, v),
            ) <= 0x100_0000),
{
    assert forall|h: int| sabs(h) <= 0x100_0000 implies (sabs(#[trigger] fx_mul_spec(h, u))
        <= 0x100_0000 && sabs(fx_mul_spec(h, v)) <= 0x100_0000) by {
        crate::vec3::lemma_attenuation_shrinks(h, u);
        crate::vec3::lemma_attenuation_shrinks(h, v);
        assert(fx_mul_spec(h, u) == fx_mul_spec(u, h)) by (nonlinear_arith);
        assert(fx_mul_spec(h, v) == fx_mul_spec(v, h)) by (nonlinear_arith);
    }
}

proof fn lemma_offset_fits(rd: Vec3, u: int, v: int)
    requires
        b3(rd, SCALE as int),
        0 <= u <= SCALE,
        0 <= v <= SCALE,
    ensures
        sabs(rd.x as int) <= COORD_MAX as int,
        sabs(rd.y as int) <= COORD_MAX as int,
        sabs(u) <= COORD_MAX as int,
        sabs(v) <= COORD_MAX as int,
        sabs(rd.x as int) * sabs(u) <= crate::fx::OP_MAX * SCALE,
        sabs(rd.y as int) * sabs(v) <= crate::fx::OP_MAX * SCALE,
        sabs(fx_mul_spec(rd.x as int, u)) <= SCALE,
        sabs(fx_mul_spec(rd.y as int, v)) <= SCALE,
{
    assert(sabs(rd.x as int) * sabs(u) <= crate::fx::OP_MAX * SCALE && sabs(rd.y as int) * sabs(v)
        <= crate::fx::OP_MAX * SCALE) by (nonlinear_arith)
        requires
            sabs(rd.x as int) <= SCALE,
            sabs(rd.y as int) <= SCALE,
            0 <= u <= SCALE,
            0 <= v <= SCALE,
            SCALE == 65536,
    ;
    crate::vec3::lemma_attenuation_shrinks(rd.x as int, u);
    crate::vec3::lemma_attenuation_shrinks(rd.y as int, v);
    assert(fx_mul_spec(rd.x as int, u) == fx_mul_spec(u, rd.x as int)) by (nonlinear_arith);
    assert(fx_mul_spec(rd.y as int, v) == fx_mul_spec(v, rd.y as int)) by (nonlinear_arith);
}

} // verus!

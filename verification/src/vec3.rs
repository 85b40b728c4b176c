//! Three-component vectors over fixed-point scalars, used both for points
//! in space and for colours.

use vstd::prelude::*;

use crate::fx::fx_div;
use crate::fx::fx_div_spec;
use crate::fx::fx_mul;
use crate::fx::fx_mul_spec;
use crate::fx::fx_sqrt;
use crate::fx::is_isqrt;
use crate::fx::sabs;
use crate::fx::sqrt_floor;
use crate::fx::tdiv;
use crate::fx::Fx;
use crate::fx::COORD_MAX;
use crate::fx::ONE;
use crate::fx::OP_MAX;
use crate::fx::SCALE;

verus! {

/// Magnitude of a unit-length direction never exceeds this, with room for
/// rounding and for sums of a few unit vectors.
pub const UNIT_MAX: i64 = 0x4_0000;

#[derive(Clone, Copy, Debug, PartialEq, Eq, Structural)]
pub struct Vec3 {
    pub x: Fx,
    pub y: Fx,
    pub z: Fx,
}

/// Every component's magnitude is at most `m`.
pub open spec fn b3(v: Vec3, m: int) -> bool {
    sabs(v.x as int) <= m && sabs(v.y as int) <= m && sabs(v.z as int) <= m
}

/// The fixed-point dot product: exact integer sum of products, scaled back
/// down with one truncating division.
pub open spec fn dot3(a: Vec3, b: Vec3) -> int {
    tdiv(a.x * b.x + a.y * b.y + a.z * b.z, SCALE as int)
}

/// The normalized vector: each component divided by the floor square root
/// of the squared length; the zero vector is left unchanged.
pub open spec fn unit3(v: Vec3) -> (int, int, int) {
    if dot3(v, v) == 0 {
        (v.x as int, v.y as int, v.z as int)
    } else {
        let len = sqrt_floor(dot3(v, v) * SCALE);
        (fx_div_spec(v.x as int, len), fx_div_spec(v.y as int, len), fx_div_spec(v.z as int, len))
    }
}

/// The dot product of an already-normalized triple with a vector.
pub open spec fn dot3u(u: (int, int, int), b: Vec3) -> int {
    tdiv(u.0 * b.x + u.1 * b.y + u.2 * b.z, SCALE as int)
}

/// The cosine term of refraction: the normalized incoming direction dotted
/// with the surface normal.
pub open spec fn refract_dt(v: Vec3, n: Vec3) -> int {
    dot3u(unit3(v), n)
}

/// The refraction discriminant at twice the usual scale: one minus the
/// squared index ratio times one minus the squared cosine.
pub open spec fn refract_disc2(dt: int, ratio: int) -> int {
    (SCALE as int) * (SCALE as int) - tdiv(
        ratio * ratio * ((SCALE as int) * (SCALE as int) - dt * dt),
        (SCALE as int) * (SCALE as int),
    )
}

/// One component of the refracted direction: the ratio times the parallel
/// part, minus the normal times the discriminant root, with a single final
/// truncation.
pub open spec fn refract_comp(vc: int, nc: int, dt: int, sq: int, ratio: int) -> int {
    tdiv(ratio * (vc * SCALE - nc * dt) - nc * sq * SCALE, (SCALE as int) * (SCALE as int))
}


/// The componentwise sum, as a vector.
pub open spec fn add_vec(a: Vec3, b: Vec3) -> Vec3 {
    Vec3 { x: (a.x + b.x) as i64, y: (a.y + b.y) as i64, z: (a.z + b.z) as i64 }
}

/// The componentwise difference, as a vector.
pub open spec fn sub_vec(a: Vec3, b: Vec3) -> Vec3 {
    Vec3 { x: (a.x - b.x) as i64, y: (a.y - b.y) as i64, z: (a.z - b.z) as i64 }
}

/// The scalar product, as a vector.
pub open spec fn scale_vec(v: Vec3, k: Fx) -> Vec3 {
    Vec3 {
        x: fx_mul_spec(v.x as int, k as int) as i64,
        y: fx_mul_spec(v.y as int, k as int) as i64,
        z: fx_mul_spec(v.z as int, k as int) as i64,
    }
}

/// The scalar quotient, as a vector.
pub open spec fn div_vec(v: Vec3, k: Fx) -> Vec3 {
    Vec3 {
        x: fx_div_spec(v.x as int, k as int) as i64,
        y: fx_div_spec(v.y as int, k as int) as i64,
        z: fx_div_spec(v.z as int, k as int) as i64,
    }
}

/// The cross product, as a vector.
pub open spec fn cross_vec(a: Vec3, b: Vec3) -> Vec3 {
    Vec3 {
        x: tdiv(a.y * b.z - a.z * b.y, SCALE as int) as i64,
        y: tdiv(a.z * b.x - a.x * b.z, SCALE as int) as i64,
        z: tdiv(a.x * b.y - a.y * b.x, SCALE as int) as i64,
    }
}

/// The normalized form, as a vector.
#[verifier::opaque]
pub open spec fn unit_vec(v: Vec3) -> Vec3 {
    let u = unit3(v);
    Vec3 { x: u.0 as i64, y: u.1 as i64, z: u.2 as i64 }
}

impl Vec3 {
    pub fn new(x: Fx, y: Fx, z: Fx) -> (r: Vec3)
        ensures
            r == (Vec3 { x, y, z }),
    {
        Vec3 { x, y, z }
    }

    pub fn x(&self) -> (r: Fx)
        ensures
            r == self.x,
    {
        self.x
    }

    pub fn y(&self) -> (r: Fx)
        ensures
            r == self.y,
    {
        self.y
    }

    pub fn z(&self) -> (r: Fx)
        ensures
            r == self.z,
    {
        self.z
    }

    /// The red channel, when the vector is a colour.
    pub fn r(&self) -> (r: Fx)
        ensures
            r == self.x,
    {
        self.x
    }

    /// The green channel, when the vector is a colour.
    pub fn g(&self) -> (r: Fx)
        ensures
            r == self.y,
    {
        self.y
    }

    /// The blue channel, when the vector is a colour.
    pub fn b(&self) -> (r: Fx)
        ensures
            r == self.z,
    {
        self.z
    }

    pub fn added(&self, other: &Vec3) -> (r: Vec3)
        requires
            b3(*self, OP_MAX as int),
            b3(*other, OP_MAX as int),
        ensures
            r == add_vec(*self, *other),
            r.x == self.x + other.x,
            r.y == self.y + other.y,
            r.z == self.z + other.z,
    {
        Vec3 { x: self.x + other.x, y: self.y + other.y, z: self.z + other.z }
    }

    pub fn subbed(&self, other: &Vec3) -> (r: Vec3)
        requires
            b3(*self, OP_MAX as int),
            b3(*other, OP_MAX as int),
        ensures
            r == sub_vec(*self, *other),
            r.x == self.x - other.x,
            r.y == self.y - other.y,
            r.z == self.z - other.z,
    {
        Vec3 { x: self.x - other.x, y: self.y - other.y, z: self.z - other.z }
    }

    pub fn negated(&self) -> (r: Vec3)
        requires
            b3(*self, OP_MAX as int),
        ensures
            r.x == -self.x,
            r.y == -self.y,
            r.z == -self.z,
    {
        Vec3 { x: -self.x, y: -self.y, z: -self.z }
    }

    /// Componentwise product with a scalar.
    pub fn scaled(&self, k: Fx) -> (r: Vec3)
        requires
            b3(*self, COORD_MAX as int),
            sabs(k as int) <= COORD_MAX as int,
        ensures
            r == scale_vec(*self, k),
            r.x == fx_mul_spec(self.x as int, k as int),
            r.y == fx_mul_spec(self.y as int, k as int),
            r.z == fx_mul_spec(self.z as int, k as int),
            sabs(k as int) <= SCALE ==> (sabs(r.x as int) <= sabs(self.x as int) && sabs(
                r.y as int,
            ) <= sabs(self.y as int) && sabs(r.z as int) <= sabs(self.z as int)),
    {
        proof {
            lemma_coord_product_fits(self.x as int, k as int);
            lemma_coord_product_fits(self.y as int, k as int);
            lemma_coord_product_fits(self.z as int, k as int);
            if sabs(k as int) <= SCALE {
                lemma_scale_shrinks(self.x as int, k as int);
                lemma_scale_shrinks(self.y as int, k as int);
                lemma_scale_shrinks(self.z as int, k as int);
            }
        }
        Vec3 { x: fx_mul(self.x, k), y: fx_mul(self.y, k), z: fx_mul(self.z, k) }
    }

    /// Componentwise product with another vector, as when a colour is
    /// attenuated by another colour.
    pub fn hadamard(&self, other: &Vec3) -> (r: Vec3)
        requires
            b3(*self, COORD_MAX as int),
            b3(*other, COORD_MAX as int),
        ensures
            r.x == fx_mul_spec(self.x as int, other.x as int),
            r.y == fx_mul_spec(self.y as int, other.y as int),
            r.z == fx_mul_spec(self.z as int, other.z as int),
    {
        proof {
            lemma_coord_product_fits(self.x as int, other.x as int);
            lemma_coord_product_fits(self.y as int, other.y as int);
            lemma_coord_product_fits(self.z as int, other.z as int);
        }
        Vec3 {
            x: fx_mul(self.x, other.x),
            y: fx_mul(self.y, other.y),
            z: fx_mul(self.z, other.z),
        }
    }

    /// Componentwise division by a scalar.
    pub fn divided(&self, k: Fx) -> (r: Vec3)
        requires
            k != 0,
            b3(*self, COORD_MAX as int),
            sabs(k as int) <= COORD_MAX as int,
        ensures
            r == div_vec(*self, k),
            r.x == fx_div_spec(self.x as int, k as int),
            r.y == fx_div_spec(self.y as int, k as int),
            r.z == fx_div_spec(self.z as int, k as int),
    {
        proof {
            lemma_coord_quotient_fits(self.x as int, k as int);
            lemma_coord_quotient_fits(self.y as int, k as int);
            lemma_coord_quotient_fits(self.z as int, k as int);
        }
        Vec3 { x: fx_div(self.x, k), y: fx_div(self.y, k), z: fx_div(self.z, k) }
    }

    pub fn dot(&self, other: &Vec3) -> (r: Fx)
        requires
            b3(*self, COORD_MAX as int),
            b3(*other, COORD_MAX as int),
        ensures
            r == dot3(*self, *other),
            sabs(r as int) <= 0x4000_0000_0000,
    {
        proof {
            lemma_dot_fits(*self, *other);
            lemma_tdiv_shrinks(
                self.x * other.x + self.y * other.y + self.z * other.z,
                SCALE as int,
                0x4000_0000_0000,
            );
        }
        let s: i128 = (self.x as i128) * (other.x as i128) + (self.y as i128) * (other.y as i128)
            + (self.z as i128) * (other.z as i128);
        tdiv_i128(s) as i64
    }

    pub fn cross(&self, other: &Vec3) -> (r: Vec3)
        requires
            b3(*self, COORD_MAX as int),
            b3(*other, COORD_MAX as int),
        ensures
            r == cross_vec(*self, *other),
            r.x == tdiv(self.y * other.z - self.z * other.y, SCALE as int),
            r.y == tdiv(self.z * other.x - self.x * other.z, SCALE as int),
            r.z == tdiv(self.x * other.y - self.y * other.x, SCALE as int),
            b3(r, 0x2000_0000_0000),
            (b3(*self, UNIT_MAX as int) && b3(*other, UNIT_MAX as int)) ==> b3(r, 0x20_0000),
            (b3(*self, 0x20_0000) && b3(*other, 0x20_0000)) ==> b3(r, 0x800_0000),
    {
        proof {
            lemma_cross_fits(*self, *other);
            if b3(*self, UNIT_MAX as int) && b3(*other, UNIT_MAX as int) {
                lemma_cross_unit(*self, *other);
            }
            if b3(*self, 0x20_0000) && b3(*other, 0x20_0000) {
                lemma_cross_small(*self, *other);
            }
        }
        let x: i128 = (self.y as i128) * (other.z as i128) - (self.z as i128) * (other.y as i128);
        let y: i128 = (self.z as i128) * (other.x as i128) - (self.x as i128) * (other.z as i128);
        let z: i128 = (self.x as i128) * (other.y as i128) - (self.y as i128) * (other.x as i128);
        Vec3 { x: tdiv_i128(x) as i64, y: tdiv_i128(y) as i64, z: tdiv_i128(z) as i64 }
    }

    /// The Euclidean length, rounded down to the scalar grid.
    pub fn length(&self) -> (r: Fx)
        requires
            b3(*self, COORD_MAX as int),
        ensures
            0 <= r,
            dot3(*self, *self) >= 0,
            r == sqrt_floor(dot3(*self, *self) * SCALE),
            is_isqrt(dot3(*self, *self) * SCALE, r as int),
    {
        proof {
            lemma_self_dot_nonneg(*self);
        }
        let d = self.dot(self);
        let r = fx_sqrt(d);
        r
    }

    /// Scale to unit length; the zero vector is returned unchanged.
    pub fn normalized(&self) -> (r: Vec3)
        requires
            b3(*self, COORD_MAX as int),
        ensures
            r == unit_vec(*self),
            (r.x as int, r.y as int, r.z as int) == unit3(*self),
            b3(r, UNIT_MAX as int),
    {
        proof {
            reveal(unit_vec);
            lemma_self_dot_nonneg(*self);
        }
        let d = self.dot(self);
        if d == 0 {
            proof {
                lemma_zero_dot_zero_vec(*self);
                lemma_zero_dot_small(*self);
            }
            *self
        } else {
            let len = self.length();
            proof {
                lemma_unit_bound(*self, len as int);
            }
            Vec3 { x: fx_div(self.x, len), y: fx_div(self.y, len), z: fx_div(self.z, len) }
        }
    }

    /// Scale this vector to unit length in place.
    pub fn normalize(&mut self)
        requires
            b3(*old(self), COORD_MAX as int),
        ensures
            (final(self).x as int, final(self).y as int, final(self).z as int) == unit3(
                *old(self),
            ),
            b3(*final(self), UNIT_MAX as int),
    {
        let v = self.normalized();
        *self = v;
    }

    /// Mirror about the given surface normal: the incoming direction minus
    /// twice its projection on the normal.
    pub fn reflected(&self, normal: &Vec3) -> (r: Vec3)
        requires
            b3(*self, UNIT_MAX as int),
            b3(*normal, UNIT_MAX as int),
        ensures
            r.x == self.x - fx_mul_spec(normal.x as int, 2 * dot3(*self, *normal)),
            r.y == self.y - fx_mul_spec(normal.y as int, 2 * dot3(*self, *normal)),
            r.z == self.z - fx_mul_spec(normal.z as int, 2 * dot3(*self, *normal)),
            b3(r, 0x200_0000),
    {
        proof {
            lemma_unit_dot_bound(*self, *normal);
        }
        let d = self.dot(normal);
        let d2 = 2 * d;
        proof {
            lemma_unit_reflect_fits(*normal, d2 as int);
        }
        Vec3 {
            x: self.x - fx_mul(normal.x, d2),
            y: self.y - fx_mul(normal.y, d2),
            z: self.z - fx_mul(normal.z, d2),
        }
    }
    /// Snell refraction of this direction at a surface with the given
    /// normal and index ratio; the result is absent under total internal
    /// reflection, when the discriminant is not positive.
    pub fn refracted(&self, normal: &Vec3, ratio: Fx) -> (r: Option<Vec3>)
        requires
            b3(*self, UNIT_MAX as int),
            b3(*normal, UNIT_MAX as int),
            0 < ratio <= UNIT_MAX,
        ensures
            r.is_some() <==> refract_disc2(refract_dt(*self, *normal), ratio as int) > 0,
            r.is_some() ==> ({
                let dt = refract_dt(*self, *normal);
                let sq = sqrt_floor(refract_disc2(dt, ratio as int));
                &&& r.unwrap().x == refract_comp(
                    self.x as int,
                    normal.x as int,
                    dt,
                    sq,
                    ratio as int,
                )
                &&& r.unwrap().y == refract_comp(
                    self.y as int,
                    normal.y as int,
                    dt,
                    sq,
                    ratio as int,
                )
                &&& r.unwrap().z == refract_comp(
                    self.z as int,
                    normal.z as int,
                    dt,
                    sq,
                    ratio as int,
                )
                &&& b3(r.unwrap(), 0x1000_0000)
            }),
    {
        proof {
            lemma_unit_small(*self);
        }
        let uv = self.normalized();
        let dt = uv.dot(normal);
        proof {
            lemma_unit_dot_bound(uv, *normal);
            assert((dt as int) * (dt as int) <= 3145728 * 3145728) by (nonlinear_arith)
                requires
                    sabs(dt as int) <= 3145728,
            ;
        }
        proof {
            assert((SCALE as int) * (SCALE as int) == 0x1_0000_0000) by (nonlinear_arith)
                requires
                    SCALE == 65536,
            ;
        }
        let s2: i128 = (SCALE as i128) * (SCALE as i128);
        let dtw: i128 = dt as i128;
        proof {
            assert(dtw * dtw <= 3145728 * 3145728 && dtw * dtw >= 0) by (nonlinear_arith)
                requires
                    -3145728 <= dtw <= 3145728,
            ;
        }
        let m: i128 = s2 - dtw * dtw;
        let rw: i128 = ratio as i128;
        proof {
            assert(0 < rw * rw <= 0x10_0000_0000) by (nonlinear_arith)
                requires
                    0 < rw <= 0x4_0000,
            ;
            assert(sabs((rw * rw) * (m as int)) <= 0x10_0000_0000 * 0xA00_0000_0000)
                by (nonlinear_arith)
                requires
                    0 < rw * rw <= 0x10_0000_0000,
                    sabs(m as int) <= 0xA00_0000_0000,
            ;
        }
        let t2num: i128 = rw * rw * m;
        let t2: i128 = tdiv_s2_i128(t2num);
        proof {
            lemma_tdiv_shrinks(t2num as int, 0x1_0000_0000, 0x2_0000_0000_0000);
        }
        let disc2: i128 = s2 - t2;
        proof {
            assert(s2 == 0x1_0000_0000) by (nonlinear_arith)
                requires
                    s2 == (SCALE as i128) * (SCALE as i128),
                    SCALE == 65536,
            ;
            assert(disc2 <= 0x4_0000_0000_0000);
        }
        if disc2 <= 0 {
            return None;
        }
        let sq64 = crate::fx::isqrt_u128(disc2 as u128);
        proof {
            assert((sq64 as int) * (sq64 as int) <= 0x4_0000_0000_0000);
            assert(sq64 <= 0x200_0000) by (nonlinear_arith)
                requires
                    (sq64 as int) * (sq64 as int) <= 0x4_0000_0000_0000,
                    sq64 >= 0,
            ;
            crate::fx::lemma_isqrt_unique(disc2 as int, sq64 as int);
        }
        let sq: i64 = sq64 as i64;
        let rx = refract_component(self.x, normal.x, dt, sq, ratio);
        let ry = refract_component(self.y, normal.y, dt, sq, ratio);
        let rz = refract_component(self.z, normal.z, dt, sq, ratio);
        Some(Vec3 { x: rx, y: ry, z: rz })
    }

}

/// Truncating division of a wide intermediate by `SCALE`.
fn tdiv_i128(n: i128) -> (r: i128)
    requires
        -0x1000_0000_0000_0000_0000_0000_0000 <= n <= 0x1000_0000_0000_0000_0000_0000_0000,
    ensures
        r == tdiv(n as int, SCALE as int),
        sabs(r as int) <= sabs(n as int),
{
    let neg = n < 0;
    let m: u128 = if neg {
        (-n) as u128
    } else {
        n as u128
    };
    let q = m / (SCALE as u128);
    proof {
        crate::fx::lemma_div_le(m as int, SCALE as int);
    }
    if neg {
        -(q as i128)
    } else {
        q as i128
    }
}

proof fn lemma_coord_product_fits(a: int, b: int)
    by (nonlinear_arith)
    requires
        sabs(a) <= COORD_MAX as int,
        sabs(b) <= COORD_MAX as int,
    ensures
        sabs(a) * sabs(b) <= OP_MAX * SCALE,
        -OP_MAX <= a <= OP_MAX,
        -OP_MAX <= b <= OP_MAX,
{
}

proof fn lemma_coord_quotient_fits(a: int, b: int)
    by (nonlinear_arith)
    requires
        b != 0,
        sabs(a) <= COORD_MAX as int,
        sabs(b) <= COORD_MAX as int,
    ensures
        sabs(a) * SCALE <= OP_MAX * sabs(b),
        -OP_MAX <= a <= OP_MAX,
        -OP_MAX <= b <= OP_MAX,
{
}

proof fn lemma_dot_fits(a: Vec3, b: Vec3)
    requires
        b3(a, COORD_MAX as int),
        b3(b, COORD_MAX as int),
    ensures
        sabs(a.x * b.x) <= COORD_MAX * COORD_MAX,
        sabs(a.y * b.y) <= COORD_MAX * COORD_MAX,
        sabs(a.z * b.z) <= COORD_MAX * COORD_MAX,
        sabs(a.x * b.x + a.y * b.y + a.z * b.z) <= 3 * COORD_MAX * COORD_MAX,
        sabs(tdiv(a.x * b.x + a.y * b.y + a.z * b.z, SCALE as int)) <= 3 * COORD_MAX * COORD_MAX,
{
    lemma_prod_abs_le(a.x as int, b.x as int, COORD_MAX as int);
    lemma_prod_abs_le(a.y as int, b.y as int, COORD_MAX as int);
    lemma_prod_abs_le(a.z as int, b.z as int, COORD_MAX as int);
    lemma_tdiv_abs_le(a.x * b.x + a.y * b.y + a.z * b.z, SCALE as int);
}

proof fn lemma_cross_fits(a: Vec3, b: Vec3)
    requires
        b3(a, COORD_MAX as int),
        b3(b, COORD_MAX as int),
    ensures
        sabs(a.y * b.z) <= COORD_MAX * COORD_MAX,
        sabs(a.z * b.y) <= COORD_MAX * COORD_MAX,
        sabs(a.z * b.x) <= COORD_MAX * COORD_MAX,
        sabs(a.x * b.z) <= COORD_MAX * COORD_MAX,
        sabs(a.x * b.y) <= COORD_MAX * COORD_MAX,
        sabs(a.y * b.x) <= COORD_MAX * COORD_MAX,
        sabs(tdiv(a.y * b.z - a.z * b.y, SCALE as int)) <= 0x2000_0000_0000,
        sabs(tdiv(a.z * b.x - a.x * b.z, SCALE as int)) <= 0x2000_0000_0000,
        sabs(tdiv(a.x * b.y - a.y * b.x, SCALE as int)) <= 0x2000_0000_0000,
{
    lemma_prod_abs_le(a.y as int, b.z as int, COORD_MAX as int);
    lemma_prod_abs_le(a.z as int, b.y as int, COORD_MAX as int);
    lemma_prod_abs_le(a.z as int, b.x as int, COORD_MAX as int);
    lemma_prod_abs_le(a.x as int, b.z as int, COORD_MAX as int);
    lemma_prod_abs_le(a.x as int, b.y as int, COORD_MAX as int);
    lemma_prod_abs_le(a.y as int, b.x as int, COORD_MAX as int);
    lemma_tdiv_shrinks(a.y * b.z - a.z * b.y, SCALE as int, 0x2000_0000_0000);
    lemma_tdiv_shrinks(a.z * b.x - a.x * b.z, SCALE as int, 0x2000_0000_0000);
    lemma_tdiv_shrinks(a.x * b.y - a.y * b.x, SCALE as int, 0x2000_0000_0000);
}

/// Truncating division never grows a magnitude.
pub proof fn lemma_tdiv_abs_le(n: int, d: int)
    by (nonlinear_arith)
    requires
        d > 0,
    ensures
        sabs(tdiv(n, d)) <= sabs(n),
{
}

/// Truncating division by `d` of anything at most `k * d` in magnitude
/// stays at most `k` in magnitude.
pub proof fn lemma_tdiv_shrinks(n: int, d: int, k: int)
    by (nonlinear_arith)
    requires
        d > 0,
        k >= 0,
        sabs(n) <= k * d,
    ensures
        sabs(tdiv(n, d)) <= k,
{
}

proof fn lemma_self_dot_nonneg(v: Vec3)
    ensures
        v.x * v.x + v.y * v.y + v.z * v.z >= 0,
        dot3(v, v) >= 0,
        dot3(v, v) <= v.x * v.x + v.y * v.y + v.z * v.z,
{
    assert(v.x * v.x + v.y * v.y + v.z * v.z >= 0) by (nonlinear_arith);
    lemma_tdiv_abs_le(v.x * v.x + v.y * v.y + v.z * v.z, SCALE as int);
}

proof fn lemma_zero_dot_zero_vec(v: Vec3)
    requires
        dot3(v, v) == 0,
    ensures
        unit3(v) == (v.x as int, v.y as int, v.z as int),
{
}

/// A vector whose squared length truncates to zero is shorter than one
/// whole unit in every component.
proof fn lemma_zero_dot_small(v: Vec3)
    requires
        dot3(v, v) == 0,
    ensures
        b3(v, 255),
{
    let s = v.x * v.x + v.y * v.y + v.z * v.z;
    lemma_sq_nonneg(v.x as int);
    lemma_sq_nonneg(v.y as int);
    lemma_sq_nonneg(v.z as int);
    assert(s < 65536) by (nonlinear_arith)
        requires
            s >= 0,
            s / 65536 == 0,
    ;
    assert(sabs(v.x as int) <= 255 && sabs(v.y as int) <= 255 && sabs(v.z as int) <= 255)
        by (nonlinear_arith)
        requires
            v.x * v.x <= s,
            v.y * v.y <= s,
            v.z * v.z <= s,
            s < 65536,
    ;
}

/// Both factors at most `m` in magnitude bounds the product by `m * m`.
pub proof fn lemma_prod_abs_le(a: int, b: int, m: int)
    by (nonlinear_arith)
    requires
        sabs(a) <= m,
        sabs(b) <= m,
    ensures
        sabs(a * b) <= m * m,
{
}

proof fn lemma_sq_nonneg(a: int)
    by (nonlinear_arith)
    ensures
        a * a >= 0,
        sabs(a * a) == a * a,
{
}

/// The dot product of two direction-sized vectors is at most 48 units.
pub proof fn lemma_unit_dot_bound(a: Vec3, b: Vec3)
    requires
        b3(a, UNIT_MAX as int),
        b3(b, UNIT_MAX as int),
    ensures
        sabs(dot3(a, b)) <= 3145728,
{
    lemma_prod_abs_le(a.x as int, b.x as int, UNIT_MAX as int);
    lemma_prod_abs_le(a.y as int, b.y as int, UNIT_MAX as int);
    lemma_prod_abs_le(a.z as int, b.z as int, UNIT_MAX as int);
    lemma_tdiv_shrinks(a.x * b.x + a.y * b.y + a.z * b.z, SCALE as int, 3145728);
}

proof fn lemma_unit_reflect_fits(n: Vec3, d2: int)
    requires
        b3(n, UNIT_MAX as int),
        sabs(d2) <= 6291456,
    ensures
        sabs(n.x as int) * sabs(d2) <= OP_MAX * SCALE,
        sabs(n.y as int) * sabs(d2) <= OP_MAX * SCALE,
        sabs(n.z as int) * sabs(d2) <= OP_MAX * SCALE,
        -OP_MAX <= n.x <= OP_MAX,
        -OP_MAX <= n.y <= OP_MAX,
        -OP_MAX <= n.z <= OP_MAX,
        -OP_MAX <= d2 <= OP_MAX,
        sabs(fx_mul_spec(n.x as int, d2)) <= 25165824,
        sabs(fx_mul_spec(n.y as int, d2)) <= 25165824,
        sabs(fx_mul_spec(n.z as int, d2)) <= 25165824,
{
    lemma_abs_mul_mono(n.x as int, d2);
    lemma_abs_mul_mono(n.y as int, d2);
    lemma_abs_mul_mono(n.z as int, d2);
}

proof fn lemma_abs_mul_mono(a: int, b: int)
    requires
        sabs(a) <= UNIT_MAX as int,
        sabs(b) <= 6291456,
    ensures
        sabs(a) * sabs(b) <= OP_MAX * SCALE,
        -OP_MAX <= a <= OP_MAX,
        -OP_MAX <= b <= OP_MAX,
        sabs(fx_mul_spec(a, b)) <= 25165824,
{
    assert(sabs(a * b) <= 25165824 * 65536 && sabs(a) * sabs(b) <= OP_MAX * SCALE)
        by (nonlinear_arith)
        requires
            sabs(a) <= UNIT_MAX as int,
            sabs(b) <= 6291456,
            UNIT_MAX == 0x4_0000,
            OP_MAX == 0x80_0000_0000_0000,
            SCALE == 65536,
    ;
    lemma_tdiv_shrinks(a * b, SCALE as int, 25165824);
}

/// Each component of a normalized vector is at most four units in
/// magnitude, and the division it is built from is in range.
proof fn lemma_unit_bound(v: Vec3, len: int)
    requires
        b3(v, COORD_MAX as int),
        dot3(v, v) > 0,
        is_isqrt(dot3(v, v) * SCALE, len),
    ensures
        len >= 256,
        sabs(v.x as int) * SCALE <= OP_MAX * len,
        sabs(v.y as int) * SCALE <= OP_MAX * len,
        sabs(v.z as int) * SCALE <= OP_MAX * len,
        sabs(fx_div_spec(v.x as int, len)) <= UNIT_MAX as int,
        sabs(fx_div_spec(v.y as int, len)) <= UNIT_MAX as int,
        sabs(fx_div_spec(v.z as int, len)) <= UNIT_MAX as int,
        -OP_MAX <= len <= OP_MAX,
{
    let d = dot3(v, v);
    let s = v.x * v.x + v.y * v.y + v.z * v.z;
    lemma_sq_nonneg(v.x as int);
    lemma_sq_nonneg(v.y as int);
    lemma_sq_nonneg(v.z as int);
    assert(s >= 0);
    assert(d == s / (SCALE as int));
    assert(len * len <= d * SCALE && d * SCALE < (len + 1) * (len + 1));
    assert(len >= 256) by (nonlinear_arith)
        requires
            d >= 1,
            len >= 0,
            d * 65536 < (len + 1) * (len + 1),
            SCALE == 65536,
            d * SCALE < (len + 1) * (len + 1),
    ;
    assert(d * SCALE <= s && s <= d * SCALE + SCALE - 1) by (nonlinear_arith)
        requires
            d == s / 65536,
            s >= 0,
            SCALE == 65536,
    ;
    lemma_unit_component(v.x as int, s, d, len);
    lemma_unit_component(v.y as int, s, d, len);
    lemma_unit_component(v.z as int, s, d, len);
    lemma_dot_fits(v, v);
    assert(len <= OP_MAX) by (nonlinear_arith)
        requires
            len * len <= d * 65536,
            d <= 3 * 0x4000_0000 * 0x4000_0000,
            len >= 0,
            OP_MAX == 0x80_0000_0000_0000,
    ;
}

proof fn lemma_unit_component(c: int, s: int, d: int, len: int)
    requires
        c * c <= s,
        d * SCALE <= s,
        s <= d * SCALE + SCALE - 1,
        len * len <= d * SCALE,
        d * SCALE < (len + 1) * (len + 1),
        len >= 256,
        sabs(c) <= COORD_MAX as int,
    ensures
        sabs(c) * SCALE <= OP_MAX * len,
        sabs(fx_div_spec(c, len)) <= UNIT_MAX as int,
{
    // c * c < (len + 1)^2 + SCALE <= (len + 1)^2 + len * len <= (2 len + 2)^2,
    // so |c| <= 2 len + 1, and |c| * SCALE / len <= 2 * SCALE + SCALE / 256.
    assert(sabs(c) <= 2 * len + 1) by (nonlinear_arith)
        requires
            c * c <= s,
            s <= d * SCALE + SCALE - 1,
            d * SCALE < (len + 1) * (len + 1),
            len >= 256,
            SCALE == 65536,
    ;
    assert(sabs(c) * SCALE <= OP_MAX * len && sabs(c) * SCALE <= UNIT_MAX * len)
        by (nonlinear_arith)
        requires
            sabs(c) <= 2 * len + 1,
            len >= 256,
            SCALE == 65536,
            UNIT_MAX == 0x4_0000,
            OP_MAX == 0x80_0000_0000_0000,
    ;
    crate::fx::lemma_div_le_factor(sabs(c) * SCALE, len, UNIT_MAX as int);
}


/// Truncating division of a wide intermediate by `SCALE * SCALE`.
fn tdiv_s2_i128(n: i128) -> (r: i128)
    requires
        -0x1000_0000_0000_0000_0000_0000_0000 <= n <= 0x1000_0000_0000_0000_0000_0000_0000,
    ensures
        r == tdiv(n as int, (SCALE as int) * (SCALE as int)),
        sabs(r as int) <= sabs(n as int),
{
    let neg = n < 0;
    let m: u128 = if neg {
        (-n) as u128
    } else {
        n as u128
    };
    let q = m / 0x1_0000_0000u128;
    proof {
        crate::fx::lemma_div_le(m as int, 0x1_0000_0000);
    }
    if neg {
        -(q as i128)
    } else {
        q as i128
    }
}

/// One component of the refracted direction, with exact intermediates and
/// one final truncation.
fn refract_component(vc: i64, nc: i64, dt: i64, sq: i64, ratio: i64) -> (r: i64)
    requires
        sabs(vc as int) <= UNIT_MAX as int,
        sabs(nc as int) <= UNIT_MAX as int,
        sabs(dt as int) <= 3145728,
        0 <= sq <= 0x200_0000,
        0 < ratio <= UNIT_MAX,
    ensures
        r == refract_comp(vc as int, nc as int, dt as int, sq as int, ratio as int),
        sabs(r as int) <= 0x1000_0000,
{
    proof {
        lemma_refract_component_fits(vc as int, nc as int, dt as int, sq as int, ratio as int);
    }
    let inner: i128 = (vc as i128) * (SCALE as i128) - (nc as i128) * (dt as i128);
    let num: i128 = (ratio as i128) * inner - (nc as i128) * (sq as i128) * (SCALE as i128);
    let r = tdiv_s2_i128(num);
    proof {
        lemma_tdiv_shrinks(num as int, 0x1_0000_0000, 0x1000_0000);
    }
    r as i64
}

proof fn lemma_refract_component_fits(vc: int, nc: int, dt: int, sq: int, ratio: int)
    by (nonlinear_arith)
    requires
        sabs(vc) <= UNIT_MAX as int,
        sabs(nc) <= UNIT_MAX as int,
        sabs(dt) <= 3145728,
        0 <= sq <= 0x200_0000,
        0 < ratio <= UNIT_MAX,
    ensures
        sabs(vc * SCALE) <= 0x4_0000_0000_0000,
        sabs(nc * dt) <= 0x4_0000 * 3145728,
        sabs(ratio * (vc * SCALE - nc * dt)) <= 0x4_0000 * (0x4_0000_0000_0000 + 0x4_0000
            * 3145728),
        sabs(nc * sq * SCALE) <= 0x4_0000 * 0x200_0000 * 65536,
        sabs(ratio * (vc * SCALE - nc * dt) - nc * sq * SCALE) <= 0x1000_0000 * 0x1_0000_0000,
{
}

/// The squared length of a vector with direction-sized components still
/// truncates to at most a few units, so its normalization stays bounded.
proof fn lemma_unit_small(v: Vec3)
    requires
        b3(v, UNIT_MAX as int),
    ensures
        b3(v, COORD_MAX as int),
{
}


/// With an index ratio of exactly one, refraction is the identity on the
/// incoming direction: the discriminant is the squared cosine, its root is
/// the cosine's magnitude, and every component comes back unchanged when
/// the direction points against the normal.
pub proof fn lemma_refract_identity(vc: int, nc: int, dt: int)
    requires
        dt <= 0,
    ensures
        refract_disc2(dt, ONE as int) == dt * dt,
        dt < 0 ==> refract_comp(
            vc,
            nc,
            dt,
            sqrt_floor(refract_disc2(dt, ONE as int)),
            ONE as int,
        ) == vc,
{
    let s2 = (SCALE as int) * (SCALE as int);
    let m = s2 - dt * dt;
    assert((ONE as int) * (ONE as int) * m == m * s2) by (nonlinear_arith)
        requires
            ONE == 65536,
            SCALE == 65536,
            s2 == (SCALE as int) * (SCALE as int),
            m == s2 - dt * dt,
    ;
    crate::fx::lemma_tdiv_mul_cancel(m, s2);
    assert(refract_disc2(dt, ONE as int) == dt * dt);
    if dt < 0 {
        assert(is_isqrt(dt * dt, -dt)) by (nonlinear_arith)
            requires
                dt < 0,
        ;
        crate::fx::lemma_isqrt_unique(dt * dt, -dt);
        let sq = -dt;
        assert((ONE as int) * (vc * SCALE - nc * dt) - nc * sq * SCALE == vc * s2)
            by (nonlinear_arith)
            requires
                ONE == 65536,
                SCALE == 65536,
                s2 == (SCALE as int) * (SCALE as int),
                sq == -dt,
        ;
        crate::fx::lemma_tdiv_mul_cancel(vc, s2);
    }
}


/// Scaling by at most one never grows a component.
proof fn lemma_scale_shrinks(x: int, k: int)
    requires
        sabs(k) <= SCALE,
    ensures
        sabs(fx_mul_spec(x, k)) <= sabs(x),
{
    assert(sabs(x * k) <= sabs(x) * SCALE) by (nonlinear_arith)
        requires
            sabs(k) <= SCALE,
    ;
    lemma_tdiv_shrinks(x * k, SCALE as int, sabs(x));
}


/// The cross product of direction-sized vectors stays within a few units.
proof fn lemma_cross_unit(a: Vec3, b: Vec3)
    requires
        b3(a, UNIT_MAX as int),
        b3(b, UNIT_MAX as int),
    ensures
        sabs(tdiv(a.y * b.z - a.z * b.y, SCALE as int)) <= 0x20_0000,
        sabs(tdiv(a.z * b.x - a.x * b.z, SCALE as int)) <= 0x20_0000,
        sabs(tdiv(a.x * b.y - a.y * b.x, SCALE as int)) <= 0x20_0000,
{
    lemma_prod_abs_le(a.y as int, b.z as int, UNIT_MAX as int);
    lemma_prod_abs_le(a.z as int, b.y as int, UNIT_MAX as int);
    lemma_prod_abs_le(a.z as int, b.x as int, UNIT_MAX as int);
    lemma_prod_abs_le(a.x as int, b.z as int, UNIT_MAX as int);
    lemma_prod_abs_le(a.x as int, b.y as int, UNIT_MAX as int);
    lemma_prod_abs_le(a.y as int, b.x as int, UNIT_MAX as int);
    lemma_tdiv_shrinks(a.y * b.z - a.z * b.y, SCALE as int, 0x20_0000);
    lemma_tdiv_shrinks(a.z * b.x - a.x * b.z, SCALE as int, 0x20_0000);
    lemma_tdiv_shrinks(a.x * b.y - a.y * b.x, SCALE as int, 0x20_0000);
}

/// The cross product of vectors within a few dozen units stays bounded.
proof fn lemma_cross_small(a: Vec3, b: Vec3)
    requires
        b3(a, 0x20_0000),
        b3(b, 0x20_0000),
    ensures
        sabs(tdiv(a.y * b.z - a.z * b.y, SCALE as int)) <= 0x800_0000,
        sabs(tdiv(a.z * b.x - a.x * b.z, SCALE as int)) <= 0x800_0000,
        sabs(tdiv(a.x * b.y - a.y * b.x, SCALE as int)) <= 0x800_0000,
{
    lemma_prod_abs_le(a.y as int, b.z as int, 0x20_0000);
    lemma_prod_abs_le(a.z as int, b.y as int, 0x20_0000);
    lemma_prod_abs_le(a.z as int, b.x as int, 0x20_0000);
    lemma_prod_abs_le(a.x as int, b.z as int, 0x20_0000);
    lemma_prod_abs_le(a.x as int, b.y as int, 0x20_0000);
    lemma_prod_abs_le(a.y as int, b.x as int, 0x20_0000);
    lemma_tdiv_shrinks(a.y * b.z - a.z * b.y, SCALE as int, 0x800_0000);
    lemma_tdiv_shrinks(a.z * b.x - a.x * b.z, SCALE as int, 0x800_0000);
    lemma_tdiv_shrinks(a.x * b.y - a.y * b.x, SCALE as int, 0x800_0000);
}

/// Scaling by a factor of at most one never grows a component; the public
/// form for colour attenuation.
pub proof fn lemma_attenuation_shrinks(x: int, k: int)
    requires
        sabs(k) <= SCALE,
    ensures
        sabs(fx_mul_spec(k, x)) <= sabs(x),
{
    assert(k * x == x * k) by (nonlinear_arith);
    lemma_scale_shrinks(x, k);
}


/// The normalized form of a world-sized vector stays direction-sized.
pub proof fn lemma_unit3_bounded(v: Vec3)
    requires
        b3(v, COORD_MAX as int),
    ensures
        sabs(unit3(v).0) <= UNIT_MAX as int,
        sabs(unit3(v).1) <= UNIT_MAX as int,
        sabs(unit3(v).2) <= UNIT_MAX as int,
{
    if dot3(v, v) == 0 {
        lemma_zero_dot_small(v);
    } else {
        lemma_self_dot_nonneg(v);
        let len = sqrt_floor(dot3(v, v) * SCALE);
        assert(exists|r: int| #[trigger] is_isqrt(dot3(v, v) * SCALE, r)) by {
            lemma_isqrt_exists(dot3(v, v) * SCALE);
        }
        assert(is_isqrt(dot3(v, v) * SCALE, len));
        lemma_unit_bound(v, len);
    }
}

/// Every nonnegative value has an integer square root.
proof fn lemma_isqrt_exists(n: int)
    requires
        n >= 0,
    ensures
        exists|r: int| #[trigger] is_isqrt(n, r),
    decreases n,
{
    if n == 0 {
        assert(is_isqrt(0, 0)) by (nonlinear_arith);
    } else {
        lemma_isqrt_exists(n - 1);
        let r = choose|r: int| #[trigger] is_isqrt(n - 1, r);
        if (r + 1) * (r + 1) <= n {
            assert(is_isqrt(n, r + 1)) by (nonlinear_arith)
                requires
                    is_isqrt(n - 1, r),
                    (r + 1) * (r + 1) <= n,
            ;
        } else {
            assert(is_isqrt(n, r));
        }
    }
}

} // verus!

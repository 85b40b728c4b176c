//! Homogeneous four-component vectors, carrying points and directions
//! through a transform.

use vstd::prelude::*;

use crate::fx::sabs;
use crate::fx::tdiv;
use crate::fx::Fx;
use crate::fx::COORD_MAX;
use crate::fx::ONE;
use crate::fx::SCALE;
use crate::mat4::Mat4;
use crate::mat4::INV_MAX;
use crate::vec3::Vec3;

verus! {

#[derive(Clone, Copy, Debug, PartialEq, Eq, Structural)]
pub struct Vec4 {
    pub x: Fx,
    pub y: Fx,
    pub z: Fx,
    pub w: Fx,
}

/// Every component's magnitude is at most `m`.
pub open spec fn b4(v: Vec4, m: int) -> bool {
    sabs(v.x as int) <= m && sabs(v.y as int) <= m && sabs(v.z as int) <= m && sabs(v.w as int)
        <= m
}

/// One component of a matrix-vector product: the dot product of a matrix
/// row with the vector, scaled back down once.
pub open spec fn xform_comp(v: Vec4, m: Mat4, row: int) -> int {
    tdiv(
        m.a@[row] * v.x + m.a@[4 + row] * v.y + m.a@[8 + row] * v.z + m.a@[12 + row] * v.w,
        SCALE as int,
    )
}

impl Vec4 {
    pub fn new(x: Fx, y: Fx, z: Fx, w: Fx) -> (r: Vec4)
        ensures
            r == (Vec4 { x, y, z, w }),
    {
        Vec4 { x, y, z, w }
    }

    pub fn x(&self) -> (r: Fx)
        ensures
            r == self.x,
    {
        self.x
    }

    pub fn y(&self) -> (r: Fx)
        ensures
            r == self.y,
    {
        self.y
    }

    pub fn z(&self) -> (r: Fx)
        ensures
            r == self.z,
    {
        self.z
    }

    pub fn w(&self) -> (r: Fx)
        ensures
            r == self.w,
    {
        self.w
    }

    /// The first three components, dropping the homogeneous one.
    pub fn xyz(&self) -> (r: Vec3)
        ensures
            r == (Vec3 { x: self.x, y: self.y, z: self.z }),
    {
        Vec3::new(self.x, self.y, self.z)
    }

    /// The red channel, when the vector is a colour.
    pub fn r(&self) -> (r: Fx)
        ensures
            r == self.x,
    {
        self.x
    }

    /// The green channel, when the vector is a colour.
    pub fn g(&self) -> (r: Fx)
        ensures
            r == self.y,
    {
        self.y
    }

    /// The blue channel, when the vector is a colour.
    pub fn b(&self) -> (r: Fx)
        ensures
            r == self.z,
    {
        self.z
    }

    /// The alpha channel, when the vector is a colour.
    pub fn a(&self) -> (r: Fx)
        ensures
            r == self.w,
    {
        self.w
    }

    /// The fixed-point dot product over all four components.
    pub fn dot(&self, other: &Vec4) -> (r: Fx)
        requires
            b4(*self, COORD_MAX as int),
            b4(*other, COORD_MAX as int),
        ensures
            r == dot4(*self, *other),
            sabs(r as int) <= 0x8000_0000_0000,
    {
        proof {
            lemma_dot4_fits(*self, *other);
        }
        let sum: i128 = (self.x as i128) * (other.x as i128) + (self.y as i128) * (other.y
            as i128) + (self.z as i128) * (other.z as i128) + (self.w as i128) * (other.w as i128);
        crate::fx::tdiv_i128_pos(sum, SCALE as i128) as i64
    }

    /// The Euclidean length, rounded down to the scalar grid.
    pub fn length(&self) -> (r: Fx)
        requires
            b4(*self, COORD_MAX as int),
        ensures
            0 <= r,
            r == crate::fx::sqrt_floor(dot4(*self, *self) * SCALE),
            crate::fx::is_isqrt(dot4(*self, *self) * SCALE, r as int),
    {
        proof {
            lemma_dot4_self_nonneg(*self);
        }
        let d = self.dot(self);
        crate::fx::fx_sqrt(d)
    }

    /// Scale to unit length; the zero vector is returned unchanged.
    pub fn normalized(&self) -> (r: Vec4)
        requires
            b4(*self, COORD_MAX as int),
        ensures
            dot4(*self, *self) == 0 ==> r == self,
    {
        proof {
            lemma_dot4_self_nonneg(*self);
        }
        let d = self.dot(self);
        if d == 0 {
            return *self;
        }
        let len = self.length();
        proof {
            lemma_len4_divides(*self, len as int);
        }
        Vec4 {
            x: crate::fx::fx_div(self.x, len),
            y: crate::fx::fx_div(self.y, len),
            z: crate::fx::fx_div(self.z, len),
            w: crate::fx::fx_div(self.w, len),
        }
    }

    /// Scale this vector to unit length in place.
    pub fn normalize(&mut self)
        requires
            b4(*old(self), COORD_MAX as int),
    {
        let v = self.normalized();
        *self = v;
    }

    /// Apply a transform: each component is a row of the matrix against
    /// this vector.
    pub fn transformed(&self, matrix: &Mat4) -> (r: Vec4)
        requires
            b4(*self, COORD_MAX as int),
            forall|i: int| 0 <= i < 16 ==> sabs(#[trigger] matrix.a@[i] as int) <= INV_MAX as int,
        ensures
            r.x == xform_comp(*self, *matrix, 0),
            r.y == xform_comp(*self, *matrix, 1),
            r.z == xform_comp(*self, *matrix, 2),
            r.w == xform_comp(*self, *matrix, 3),
            b4(r, 0x4000_0000_0000),
    {
        let x = xform_row(self, matrix, 0);
        let y = xform_row(self, matrix, 1);
        let z = xform_row(self, matrix, 2);
        let w = xform_row(self, matrix, 3);
        Vec4 { x, y, z, w }
    }
}

/// One row of a transform applied to a vector, with exact intermediates.
fn xform_row(v: &Vec4, m: &Mat4, row: usize) -> (r: Fx)
    requires
        b4(*v, COORD_MAX as int),
        forall|i: int| 0 <= i < 16 ==> sabs(#[trigger] m.a@[i] as int) <= INV_MAX as int,
        row < 4,
    ensures
        r == xform_comp(*v, *m, row as int),
        sabs(r as int) <= 0x4000_0000_0000,
{
    proof {
        lemma_xform_fits(
            m.a@[row as int] as int,
            m.a@[4 + row] as int,
            m.a@[8 + row] as int,
            m.a@[12 + row] as int,
            v.x as int,
            v.y as int,
            v.z as int,
            v.w as int,
        );
    }
    let s: i128 = (m.a[row] as i128) * (v.x as i128) + (m.a[4 + row] as i128) * (v.y as i128) + (
    m.a[8 + row] as i128) * (v.z as i128) + (m.a[12 + row] as i128) * (v.w as i128);
    crate::fx::tdiv_i128_pos(s, SCALE as i128) as i64
}

proof fn lemma_xform_fits(m0: int, m1: int, m2: int, m3: int, x: int, y: int, z: int, w: int)
    requires
        sabs(m0) <= INV_MAX as int,
        sabs(m1) <= INV_MAX as int,
        sabs(m2) <= INV_MAX as int,
        sabs(m3) <= INV_MAX as int,
        sabs(x) <= COORD_MAX as int,
        sabs(y) <= COORD_MAX as int,
        sabs(z) <= COORD_MAX as int,
        sabs(w) <= COORD_MAX as int,
    ensures
        sabs(m0 * x) <= INV_MAX * COORD_MAX,
        sabs(m1 * y) <= INV_MAX * COORD_MAX,
        sabs(m2 * z) <= INV_MAX * COORD_MAX,
        sabs(m3 * w) <= INV_MAX * COORD_MAX,
        sabs(tdiv(m0 * x + m1 * y + m2 * z + m3 * w, SCALE as int)) <= 0x4000_0000_0000,
{
    crate::vec3::lemma_prod_abs_le(m0, x, COORD_MAX as int);
    crate::vec3::lemma_prod_abs_le(m1, y, COORD_MAX as int);
    crate::vec3::lemma_prod_abs_le(m2, z, COORD_MAX as int);
    crate::vec3::lemma_prod_abs_le(m3, w, COORD_MAX as int);
    assert(sabs(m0 * x + m1 * y + m2 * z + m3 * w) <= 4 * COORD_MAX * COORD_MAX);
    assert(4 * COORD_MAX * COORD_MAX <= 0x4000_0000_0000 * 65536);
    crate::vec3::lemma_tdiv_shrinks(
        m0 * x + m1 * y + m2 * z + m3 * w,
        SCALE as int,
        0x4000_0000_0000,
    );
}

impl Vec3 {
    /// This point as a homogeneous vector, with weight one.
    pub fn xyz1(&self) -> (r: Vec4)
        ensures
            r == (Vec4 { x: self.x, y: self.y, z: self.z, w: ONE }),
    {
        Vec4::new(self.x, self.y, self.z, ONE)
    }

    /// This direction as a homogeneous vector, with weight zero.
    pub fn xyz0(&self) -> (r: Vec4)
        ensures
            r == (Vec4 { x: self.x, y: self.y, z: self.z, w: 0 }),
    {
        Vec4::new(self.x, self.y, self.z, 0)
    }
}


/// The fixed-point dot product of four-component vectors.
pub open spec fn dot4(a: Vec4, b: Vec4) -> int {
    tdiv(a.x * b.x + a.y * b.y + a.z * b.z + a.w * b.w, SCALE as int)
}

proof fn lemma_dot4_fits(a: Vec4, b: Vec4)
    requires
        b4(a, COORD_MAX as int),
        b4(b, COORD_MAX as int),
    ensures
        sabs(a.x * b.x) <= COORD_MAX * COORD_MAX,
        sabs(a.y * b.y) <= COORD_MAX * COORD_MAX,
        sabs(a.z * b.z) <= COORD_MAX * COORD_MAX,
        sabs(a.w * b.w) <= COORD_MAX * COORD_MAX,
        sabs(tdiv(a.x * b.x + a.y * b.y + a.z * b.z + a.w * b.w, SCALE as int))
            <= 0x8000_0000_0000,
{
    crate::vec3::lemma_prod_abs_le(a.x as int, b.x as int, COORD_MAX as int);
    crate::vec3::lemma_prod_abs_le(a.y as int, b.y as int, COORD_MAX as int);
    crate::vec3::lemma_prod_abs_le(a.z as int, b.z as int, COORD_MAX as int);
    crate::vec3::lemma_prod_abs_le(a.w as int, b.w as int, COORD_MAX as int);
    crate::vec3::lemma_tdiv_shrinks(
        a.x * b.x + a.y * b.y + a.z * b.z + a.w * b.w,
        SCALE as int,
        0x8000_0000_0000,
    );
}

proof fn lemma_dot4_self_nonneg(v: Vec4)
    ensures
        v.x * v.x + v.y * v.y + v.z * v.z + v.w * v.w >= 0,
        dot4(v, v) >= 0,
{
    assert(v.x * v.x + v.y * v.y + v.z * v.z + v.w * v.w >= 0) by (nonlinear_arith);
}

/// A nonzero squared length gives a length the components divide by
/// safely.
proof fn lemma_len4_divides(v: Vec4, len: int)
    requires
        b4(v, COORD_MAX as int),
        dot4(v, v) > 0,
        crate::fx::is_isqrt(dot4(v, v) * SCALE, len),
    ensures
        len >= 256,
        sabs(v.x as int) * SCALE <= crate::fx::OP_MAX * len,
        sabs(v.y as int) * SCALE <= crate::fx::OP_MAX * len,
        sabs(v.z as int) * SCALE <= crate::fx::OP_MAX * len,
        sabs(v.w as int) * SCALE <= crate::fx::OP_MAX * len,
        -crate::fx::OP_MAX <= len <= crate::fx::OP_MAX,
{
    assert(len >= 256) by (nonlinear_arith)
        requires
            dot4(v, v) >= 1,
            len >= 0,
            dot4(v, v) * SCALE < (len + 1) * (len + 1),
            SCALE == 65536,
    ;
    assert forall|c: int| sabs(c) <= COORD_MAX as int implies sabs(c) * SCALE <= crate::fx::OP_MAX
        * len by {
        assert(sabs(c) * SCALE <= crate::fx::OP_MAX * len) by (nonlinear_arith)
            requires
                sabs(c) <= COORD_MAX as int,
                len >= 256,
                SCALE == 65536,
                COORD_MAX == 0x4000_0000,
                crate::fx::OP_MAX == 0x80_0000_0000_0000,
        ;
    }
    lemma_dot4_fits(v, v);
    assert(len <= crate::fx::OP_MAX) by (nonlinear_arith)
        requires
            len * len <= dot4(v, v) * SCALE,
            dot4(v, v) <= 0x8000_0000_0000,
            len >= 0,
            SCALE == 65536,
            crate::fx::OP_MAX == 0x80_0000_0000_0000,
    ;
}

} // verus!

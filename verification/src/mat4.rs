//! Four-by-four transform matrices in column-major order, with the cached
//! inverse and determinant used on the intersection hot path.

use vstd::prelude::*;

use crate::fx::fx_mul;
use crate::fx::fx_mul_spec;
use crate::fx::sabs;
use crate::fx::tdiv;
use crate::fx::Fx;
use crate::fx::ONE;
use crate::fx::SCALE;
use crate::vec3::b3;
use crate::vec3::Vec3;

verus! {

/// Largest magnitude of a transform entry: 1024 whole units.
pub const MAT_MAX: i64 = 0x400_0000;

/// Largest magnitude of an inverse entry before the transform counts as
/// degenerate.
pub const INV_MAX: i64 = 0x4000_0000;

/// A transform, sixteen entries in column-major order.
#[derive(Clone, Copy, Debug)]
pub struct Mat4 {
    pub a: [Fx; 16],
}

/// Every entry is within the transform range.
pub open spec fn mat_wf(m: Mat4) -> bool {
    forall|i: int| 0 <= i < 16 ==> sabs(#[trigger] m.a@[i] as int) <= MAT_MAX as int
}

/// One entry of the matrix product: the dot product of a row of the first
/// factor with a column of the second, scaled back down once.
pub open spec fn mm_spec(m: Mat4, other: Mat4, k: int) -> int {
    let col = 4 * (k / 4);
    let row = k % 4;
    tdiv(
        other.a@[col] * m.a@[row] + other.a@[col + 1] * m.a@[4 + row] + other.a@[col + 2] * m.a@[8
            + row] + other.a@[col + 3] * m.a@[12 + row],
        SCALE as int,
    )
}

/// The six two-by-two minors of the upper rows, at twice the scale.
pub open spec fn m_b00(m: Mat4) -> int {
    m.a@[0] * m.a@[5] - m.a@[1] * m.a@[4]
}

pub open spec fn m_b01(m: Mat4) -> int {
    m.a@[0] * m.a@[6] - m.a@[2] * m.a@[4]
}

pub open spec fn m_b02(m: Mat4) -> int {
    m.a@[0] * m.a@[7] - m.a@[3] * m.a@[4]
}

pub open spec fn m_b03(m: Mat4) -> int {
    m.a@[1] * m.a@[6] - m.a@[2] * m.a@[5]
}

pub open spec fn m_b04(m: Mat4) -> int {
    m.a@[1] * m.a@[7] - m.a@[3] * m.a@[5]
}

pub open spec fn m_b05(m: Mat4) -> int {
    m.a@[2] * m.a@[7] - m.a@[3] * m.a@[6]
}

/// The six two-by-two minors of the lower rows, at twice the scale.
pub open spec fn m_b06(m: Mat4) -> int {
    m.a@[8] * m.a@[13] - m.a@[9] * m.a@[12]
}

pub open spec fn m_b07(m: Mat4) -> int {
    m.a@[8] * m.a@[14] - m.a@[10] * m.a@[12]
}

pub open spec fn m_b08(m: Mat4) -> int {
    m.a@[8] * m.a@[15] - m.a@[11] * m.a@[12]
}

pub open spec fn m_b09(m: Mat4) -> int {
    m.a@[9] * m.a@[14] - m.a@[10] * m.a@[13]
}

pub open spec fn m_b10(m: Mat4) -> int {
    m.a@[9] * m.a@[15] - m.a@[11] * m.a@[13]
}

pub open spec fn m_b11(m: Mat4) -> int {
    m.a@[10] * m.a@[15] - m.a@[11] * m.a@[14]
}

/// The determinant at four times the scale, from the twelve minors.
pub open spec fn det4_spec(m: Mat4) -> int {
    m_b00(m) * m_b11(m) - m_b01(m) * m_b10(m) + m_b02(m) * m_b09(m) + m_b03(m) * m_b08(m) - m_b04(
        m,
    ) * m_b07(m) + m_b05(m) * m_b06(m)
}

/// The determinant as a scalar: the exact value scaled down three times.
pub open spec fn determinant_spec(m: Mat4) -> int {
    tdiv(det4_spec(m), (SCALE as int) * (SCALE as int) * (SCALE as int))
}

/// One adjugate entry at three times the scale, the cofactor pattern of the
/// column-major layout.
pub open spec fn adj_spec(m: Mat4, k: int) -> int {
    if k == 0 {
        m.a@[5] * m_b11(m) - m.a@[6] * m_b10(m) + m.a@[7] * m_b09(m)
    } else if k == 1 {
        m.a@[2] * m_b10(m) - m.a@[1] * m_b11(m) - m.a@[3] * m_b09(m)
    } else if k == 2 {
        m.a@[13] * m_b05(m) - m.a@[14] * m_b04(m) + m.a@[15] * m_b03(m)
    } else if k == 3 {
        m.a@[10] * m_b04(m) - m.a@[9] * m_b05(m) - m.a@[11] * m_b03(m)
    } else if k == 4 {
        m.a@[6] * m_b08(m) - m.a@[4] * m_b11(m) - m.a@[7] * m_b07(m)
    } else if k == 5 {
        m.a@[0] * m_b11(m) - m.a@[2] * m_b08(m) + m.a@[3] * m_b07(m)
    } else if k == 6 {
        m.a@[14] * m_b02(m) - m.a@[12] * m_b05(m) - m.a@[15] * m_b01(m)
    } else if k == 7 {
        m.a@[8] * m_b05(m) - m.a@[10] * m_b02(m) + m.a@[11] * m_b01(m)
    } else if k == 8 {
        m.a@[4] * m_b10(m) - m.a@[5] * m_b08(m) + m.a@[7] * m_b06(m)
    } else if k == 9 {
        m.a@[1] * m_b08(m) - m.a@[0] * m_b10(m) - m.a@[3] * m_b06(m)
    } else if k == 10 {
        m.a@[12] * m_b04(m) - m.a@[13] * m_b02(m) + m.a@[15] * m_b00(m)
    } else if k == 11 {
        m.a@[9] * m_b02(m) - m.a@[8] * m_b04(m) - m.a@[11] * m_b00(m)
    } else if k == 12 {
        m.a@[5] * m_b07(m) - m.a@[4] * m_b09(m) - m.a@[6] * m_b06(m)
    } else if k == 13 {
        m.a@[0] * m_b09(m) - m.a@[1] * m_b07(m) + m.a@[2] * m_b06(m)
    } else if k == 14 {
        m.a@[13] * m_b01(m) - m.a@[12] * m_b03(m) - m.a@[14] * m_b00(m)
    } else {
        m.a@[8] * m_b03(m) - m.a@[9] * m_b01(m) + m.a@[10] * m_b00(m)
    }
}

/// Signed truncating division: the sign rule applied to the positive form.
pub open spec fn sdiv(n: int, d: int) -> int
    recommends
        d != 0,
{
    if d > 0 {
        tdiv(n, d)
    } else {
        -tdiv(n, -d)
    }
}

/// One entry of the inverse: the adjugate entry over the determinant,
/// rescaled to a scalar.
pub open spec fn inv_entry_spec(m: Mat4, k: int) -> int {
    sdiv(adj_spec(m, k) * SCALE * SCALE, det4_spec(m))
}

/// A transform has a usable inverse: its determinant is not zero and every
/// inverse entry stays representable.
pub open spec fn mat_invertible(m: Mat4) -> bool {
    det4_spec(m) != 0 && forall|k: int|
        0 <= k < 16 ==> sabs(#[trigger] inv_entry_spec(m, k)) <= INV_MAX as int
}

impl Mat4 {
    /// The identity transform.
    pub fn identity() -> (r: Mat4)
        ensures
            r.a@ =~= seq![
                ONE, 0, 0, 0, 0, ONE, 0, 0, 0, 0, ONE, 0, 0, 0, 0, ONE,
            ],
            mat_wf(r),
    {
        let a: [Fx; 16] = [ONE, 0, 0, 0, 0, ONE, 0, 0, 0, 0, ONE, 0, 0, 0, 0, ONE];
        proof {
            assert(forall|i: int| 0 <= i < 16 ==> sabs(#[trigger] a@[i] as int) <= MAT_MAX as int);
        }
        Mat4 { a }
    }

    /// The all-zero transform.
    pub fn zero() -> (r: Mat4)
        ensures
            forall|i: int| 0 <= i < 16 ==> #[trigger] r.a@[i] == 0,
            mat_wf(r),
    {
        Mat4 { a: [0; 16] }
    }

    /// A translation by the given offset.
    pub fn translation(offset: Vec3) -> (r: Mat4)
        requires
            b3(offset, MAT_MAX as int),
        ensures
            r.a@ =~= seq![
                ONE, 0, 0, 0, 0, ONE, 0, 0, 0, 0, ONE, 0, offset.x, offset.y, offset.z, ONE,
            ],
            mat_wf(r),
    {
        let a: [Fx; 16] = [ONE, 0, 0, 0, 0, ONE, 0, 0, 0, 0, ONE, 0, offset.x, offset.y, offset.z,
            ONE];
        Mat4 { a }
    }

    /// A rotation about the given unit axis; the caller supplies the sine
    /// and cosine of the angle.
    pub fn rotation(s: Fx, c: Fx, axis: Vec3) -> (r: Mat4)
        requires
            sabs(s as int) <= SCALE,
            sabs(c as int) <= SCALE,
            b3(axis, SCALE as int),
        ensures
            mat_wf(r),
            r.a@[0] == fx_mul_spec(fx_mul_spec(axis.x as int, axis.x as int), (ONE - c) as int) + c,
            r.a@[1] == fx_mul_spec(fx_mul_spec(axis.y as int, axis.x as int), (ONE - c) as int)
                + fx_mul_spec(axis.z as int, s as int),
            r.a@[2] == fx_mul_spec(fx_mul_spec(axis.z as int, axis.x as int), (ONE - c) as int)
                - fx_mul_spec(axis.y as int, s as int),
            r.a@[4] == fx_mul_spec(fx_mul_spec(axis.x as int, axis.y as int), (ONE - c) as int)
                - fx_mul_spec(axis.z as int, s as int),
            r.a@[5] == fx_mul_spec(fx_mul_spec(axis.y as int, axis.y as int), (ONE - c) as int) + c,
            r.a@[6] == fx_mul_spec(fx_mul_spec(axis.z as int, axis.y as int), (ONE - c) as int)
                + fx_mul_spec(axis.x as int, s as int),
            r.a@[8] == fx_mul_spec(fx_mul_spec(axis.x as int, axis.z as int), (ONE - c) as int)
                + fx_mul_spec(axis.y as int, s as int),
            r.a@[9] == fx_mul_spec(fx_mul_spec(axis.y as int, axis.z as int), (ONE - c) as int)
                - fx_mul_spec(axis.x as int, s as int),
            r.a@[10] == fx_mul_spec(fx_mul_spec(axis.z as int, axis.z as int), (ONE - c) as int)
                + c,
            r.a@[3] == 0 && r.a@[7] == 0 && r.a@[11] == 0,
            r.a@[12] == 0 && r.a@[13] == 0 && r.a@[14] == 0,
            r.a@[15] == ONE,
    {
        let x = axis.x;
        let y = axis.y;
        let z = axis.z;
        let t = ONE - c;
        proof {
            lemma_unitish_fxm(x as int, x as int);
            lemma_unitish_fxm(y as int, x as int);
            lemma_unitish_fxm(z as int, x as int);
            lemma_unitish_fxm(x as int, y as int);
            lemma_unitish_fxm(y as int, y as int);
            lemma_unitish_fxm(z as int, y as int);
            lemma_unitish_fxm(x as int, z as int);
            lemma_unitish_fxm(y as int, z as int);
            lemma_unitish_fxm(z as int, z as int);
            lemma_unitish_fxm(x as int, s as int);
            lemma_unitish_fxm(y as int, s as int);
            lemma_unitish_fxm(z as int, s as int);
            lemma_two_fxm(fx_mul_spec(x as int, x as int), t as int);
            lemma_two_fxm(fx_mul_spec(y as int, x as int), t as int);
            lemma_two_fxm(fx_mul_spec(z as int, x as int), t as int);
            lemma_two_fxm(fx_mul_spec(x as int, y as int), t as int);
            lemma_two_fxm(fx_mul_spec(y as int, y as int), t as int);
            lemma_two_fxm(fx_mul_spec(z as int, y as int), t as int);
            lemma_two_fxm(fx_mul_spec(x as int, z as int), t as int);
            lemma_two_fxm(fx_mul_spec(y as int, z as int), t as int);
            lemma_two_fxm(fx_mul_spec(z as int, z as int), t as int);
        }
        let a: [Fx; 16] = [
            fx_mul(fx_mul(x, x), t) + c,
            fx_mul(fx_mul(y, x), t) + fx_mul(z, s),
            fx_mul(fx_mul(z, x), t) - fx_mul(y, s),
            0,
            fx_mul(fx_mul(x, y), t) - fx_mul(z, s),
            fx_mul(fx_mul(y, y), t) + c,
            fx_mul(fx_mul(z, y), t) + fx_mul(x, s),
            0,
            fx_mul(fx_mul(x, z), t) + fx_mul(y, s),
            fx_mul(fx_mul(y, z), t) - fx_mul(x, s),
            fx_mul(fx_mul(z, z), t) + c,
            0,
            0,
            0,
            0,
            ONE,
        ];
        Mat4 { a }
    }

    /// Every entry is within the transform range, tested at run time.
    pub fn is_wf(&self) -> (r: bool)
        ensures
            r == mat_wf(*self),
    {
        let mut i: usize = 0;
        while i < 16
            invariant
                i <= 16,
                forall|j: int| 0 <= j < i ==> sabs(#[trigger] self.a@[j] as int) <= MAT_MAX as int,
            decreases 16 - i,
        {
            if self.a[i] < -MAT_MAX || self.a[i] > MAT_MAX {
                return false;
            }
            i = i + 1;
        }
        true
    }

    /// The matrix product, this transform applied after the other.
    pub fn multiplied(&self, other: &Mat4) -> (r: Mat4)
        requires
            mat_wf(*self),
            mat_wf(*other),
        ensures
            forall|k: int| 0 <= k < 16 ==> #[trigger] r.a@[k] == mm_spec(*self, *other, k),
            forall|k: int| 0 <= k < 16 ==> sabs(#[trigger] r.a@[k] as int) <= 0x10_0000_0000_0000,
    {
        let a: [Fx; 16] = [
            mul_row_col(self, other, 0, 0),
            mul_row_col(self, other, 0, 1),
            mul_row_col(self, other, 0, 2),
            mul_row_col(self, other, 0, 3),
            mul_row_col(self, other, 4, 0),
            mul_row_col(self, other, 4, 1),
            mul_row_col(self, other, 4, 2),
            mul_row_col(self, other, 4, 3),
            mul_row_col(self, other, 8, 0),
            mul_row_col(self, other, 8, 1),
            mul_row_col(self, other, 8, 2),
            mul_row_col(self, other, 8, 3),
            mul_row_col(self, other, 12, 0),
            mul_row_col(self, other, 12, 1),
            mul_row_col(self, other, 12, 2),
            mul_row_col(self, other, 12, 3),
        ];
        let r = Mat4 { a };
        proof {
            assert forall|k: int| 0 <= k < 16 implies #[trigger] r.a@[k] == mm_spec(
                *self,
                *other,
                k,
            ) by {
                assert(4 * (k / 4) == k - k % 4);
            }
        }
        r
    }

    /// The determinant, by the two-by-two minor expansion.
    pub fn determinant(&self) -> (r: Fx)
        requires
            mat_wf(*self),
        ensures
            r == determinant_spec(*self),
    {
        let b = minors(self);
        proof {
            lemma_det_fits(*self);
        }
        let det4: i128 = b.0 * b.11 - b.1 * b.10 + b.2 * b.9 + b.3 * b.8 - b.4 * b.7 + b.5 * b.6;
        let r = crate::fx::tdiv_i128_pos(det4, 0x1_0000_0000_0000);
        proof {
            assert((SCALE as int) * (SCALE as int) * (SCALE as int) == 0x1_0000_0000_0000)
                by (nonlinear_arith)
                requires
                    SCALE == 65536,
            ;
            crate::vec3::lemma_tdiv_shrinks(
                det4 as int,
                0x1_0000_0000_0000,
                0x2000_0000_0000_0000,
            );
        }
        r as i64
    }

    /// The inverse transform: the adjugate over the determinant. A
    /// transform with determinant zero, or whose inverse leaves the
    /// representable range, has none.
    pub fn inversed(&self) -> (r: Option<Mat4>)
        requires
            mat_wf(*self),
        ensures
            r.is_some() <==> mat_invertible(*self),
            r.is_some() ==> forall|k: int|
                0 <= k < 16 ==> #[trigger] r.unwrap().a@[k] == inv_entry_spec(*self, k),
            r.is_some() ==> forall|k: int|
                0 <= k < 16 ==> sabs(#[trigger] r.unwrap().a@[k] as int) <= INV_MAX as int,
    {
        let b = minors(self);
        proof {
            lemma_det_fits(*self);
        }
        let det4: i128 = b.0 * b.11 - b.1 * b.10 + b.2 * b.9 + b.3 * b.8 - b.4 * b.7 + b.5 * b.6;
        if det4 == 0 {
            return None;
        }
        let e0 = inv_entry(self, 0, det4);
        let e1 = inv_entry(self, 1, det4);
        let e2 = inv_entry(self, 2, det4);
        let e3 = inv_entry(self, 3, det4);
        let e4 = inv_entry(self, 4, det4);
        let e5 = inv_entry(self, 5, det4);
        let e6 = inv_entry(self, 6, det4);
        let e7 = inv_entry(self, 7, det4);
        let e8 = inv_entry(self, 8, det4);
        let e9 = inv_entry(self, 9, det4);
        let e10 = inv_entry(self, 10, det4);
        let e11 = inv_entry(self, 11, det4);
        let e12 = inv_entry(self, 12, det4);
        let e13 = inv_entry(self, 13, det4);
        let e14 = inv_entry(self, 14, det4);
        let e15 = inv_entry(self, 15, det4);
        if e0.is_none() || e1.is_none() || e2.is_none() || e3.is_none() || e4.is_none()
            || e5.is_none() || e6.is_none() || e7.is_none() || e8.is_none() || e9.is_none()
            || e10.is_none() || e11.is_none() || e12.is_none() || e13.is_none() || e14.is_none()
            || e15.is_none() {
            proof {
                assert(!mat_invertible(*self));
            }
            return None;
        }
        let a: [Fx; 16] = [
            e0.unwrap(),
            e1.unwrap(),
            e2.unwrap(),
            e3.unwrap(),
            e4.unwrap(),
            e5.unwrap(),
            e6.unwrap(),
            e7.unwrap(),
            e8.unwrap(),
            e9.unwrap(),
            e10.unwrap(),
            e11.unwrap(),
            e12.unwrap(),
            e13.unwrap(),
            e14.unwrap(),
            e15.unwrap(),
        ];
        let r = Mat4 { a };
        proof {
            assert forall|k: int| 0 <= k < 16 implies #[trigger] r.a@[k] == inv_entry_spec(
                *self,
                k,
            ) && sabs(r.a@[k] as int) <= INV_MAX as int by {
            }
            assert(mat_invertible(*self)) by {
                assert forall|k: int| 0 <= k < 16 implies sabs(#[trigger] inv_entry_spec(*self, k))
                    <= INV_MAX as int by {
                    assert(r.a@[k] == inv_entry_spec(*self, k));
                }
            }
        }
        Some(r)
    }
}

/// One entry of a matrix product, with exact intermediates.
fn mul_row_col(m: &Mat4, other: &Mat4, col: usize, row: usize) -> (r: Fx)
    requires
        mat_wf(*m),
        mat_wf(*other),
        col == 0 || col == 4 || col == 8 || col == 12,
        row < 4,
    ensures
        r == tdiv(
            other.a@[col as int] * m.a@[row as int] + other.a@[col + 1] * m.a@[4 + row]
                + other.a@[col + 2] * m.a@[8 + row] + other.a@[col + 3] * m.a@[12 + row],
            SCALE as int,
        ),
        sabs(r as int) <= 0x10_0000_0000_0000,
{
    proof {
        lemma_mm_fits(
            other.a@[col as int] as int,
            other.a@[col + 1] as int,
            other.a@[col + 2] as int,
            other.a@[col + 3] as int,
            m.a@[row as int] as int,
            m.a@[4 + row] as int,
            m.a@[8 + row] as int,
            m.a@[12 + row] as int,
        );
    }
    let s: i128 = (other.a[col] as i128) * (m.a[row] as i128) + (other.a[col + 1] as i128) * (m.a[4
        + row] as i128) + (other.a[col + 2] as i128) * (m.a[8 + row] as i128) + (other.a[col
        + 3] as i128) * (m.a[12 + row] as i128);
    crate::fx::tdiv_i128_pos(s, SCALE as i128) as i64
}

proof fn lemma_mm_fits(b0: int, b1: int, b2: int, b3: int, a0: int, a1: int, a2: int, a3: int)
    requires
        sabs(b0) <= MAT_MAX as int,
        sabs(b1) <= MAT_MAX as int,
        sabs(b2) <= MAT_MAX as int,
        sabs(b3) <= MAT_MAX as int,
        sabs(a0) <= MAT_MAX as int,
        sabs(a1) <= MAT_MAX as int,
        sabs(a2) <= MAT_MAX as int,
        sabs(a3) <= MAT_MAX as int,
    ensures
        sabs(b0 * a0) <= MAT_MAX * MAT_MAX,
        sabs(b1 * a1) <= MAT_MAX * MAT_MAX,
        sabs(b2 * a2) <= MAT_MAX * MAT_MAX,
        sabs(b3 * a3) <= MAT_MAX * MAT_MAX,
        sabs(tdiv(b0 * a0 + b1 * a1 + b2 * a2 + b3 * a3, SCALE as int)) <= 0x10_0000_0000_0000,
{
    crate::vec3::lemma_prod_abs_le(b0, a0, MAT_MAX as int);
    crate::vec3::lemma_prod_abs_le(b1, a1, MAT_MAX as int);
    crate::vec3::lemma_prod_abs_le(b2, a2, MAT_MAX as int);
    crate::vec3::lemma_prod_abs_le(b3, a3, MAT_MAX as int);
    assert(sabs(b0 * a0 + b1 * a1 + b2 * a2 + b3 * a3) <= 4 * MAT_MAX * MAT_MAX);
    assert(4 * MAT_MAX * MAT_MAX <= 0x10_0000_0000_0000 * 65536);
    crate::vec3::lemma_tdiv_shrinks(
        b0 * a0 + b1 * a1 + b2 * a2 + b3 * a3,
        SCALE as int,
        0x10_0000_0000_0000,
    );
}

/// The twelve two-by-two minors, as wide integers.
#[allow(clippy::type_complexity)]
fn minors(m: &Mat4) -> (r: (
    i128,
    i128,
    i128,
    i128,
    i128,
    i128,
    i128,
    i128,
    i128,
    i128,
    i128,
    i128,
))
    requires
        mat_wf(*m),
    ensures
        r.0 == m_b00(*m) && r.1 == m_b01(*m) && r.2 == m_b02(*m) && r.3 == m_b03(*m),
        r.4 == m_b04(*m) && r.5 == m_b05(*m) && r.6 == m_b06(*m) && r.7 == m_b07(*m),
        r.8 == m_b08(*m) && r.9 == m_b09(*m) && r.10 == m_b10(*m) && r.11 == m_b11(*m),
{
    proof {
        lemma_minor_fits(*m);
    }
    (
        (m.a[0] as i128) * (m.a[5] as i128) - (m.a[1] as i128) * (m.a[4] as i128),
        (m.a[0] as i128) * (m.a[6] as i128) - (m.a[2] as i128) * (m.a[4] as i128),
        (m.a[0] as i128) * (m.a[7] as i128) - (m.a[3] as i128) * (m.a[4] as i128),
        (m.a[1] as i128) * (m.a[6] as i128) - (m.a[2] as i128) * (m.a[5] as i128),
        (m.a[1] as i128) * (m.a[7] as i128) - (m.a[3] as i128) * (m.a[5] as i128),
        (m.a[2] as i128) * (m.a[7] as i128) - (m.a[3] as i128) * (m.a[6] as i128),
        (m.a[8] as i128) * (m.a[13] as i128) - (m.a[9] as i128) * (m.a[12] as i128),
        (m.a[8] as i128) * (m.a[14] as i128) - (m.a[10] as i128) * (m.a[12] as i128),
        (m.a[8] as i128) * (m.a[15] as i128) - (m.a[11] as i128) * (m.a[12] as i128),
        (m.a[9] as i128) * (m.a[14] as i128) - (m.a[10] as i128) * (m.a[13] as i128),
        (m.a[9] as i128) * (m.a[15] as i128) - (m.a[11] as i128) * (m.a[13] as i128),
        (m.a[10] as i128) * (m.a[15] as i128) - (m.a[11] as i128) * (m.a[14] as i128),
    )
}

proof fn lemma_minor_fits(m: Mat4)
    requires
        mat_wf(m),
    ensures
        forall|i: int, j: int|
            0 <= i < 16 && 0 <= j < 16 ==> sabs(#[trigger] (m.a@[i] * m.a@[j])) <= MAT_MAX
                * MAT_MAX,
{
    assert forall|i: int, j: int| 0 <= i < 16 && 0 <= j < 16 implies sabs(
        #[trigger] (m.a@[i] * m.a@[j]),
    ) <= MAT_MAX * MAT_MAX by {
        crate::vec3::lemma_prod_abs_le(m.a@[i] as int, m.a@[j] as int, MAT_MAX as int);
    }
}

/// Bounds for the determinant accumulation.
proof fn lemma_det_fits(m: Mat4)
    requires
        mat_wf(m),
    ensures
        sabs(m_b00(m)) <= 2 * MAT_MAX * MAT_MAX,
        sabs(m_b01(m)) <= 2 * MAT_MAX * MAT_MAX,
        sabs(m_b02(m)) <= 2 * MAT_MAX * MAT_MAX,
        sabs(m_b03(m)) <= 2 * MAT_MAX * MAT_MAX,
        sabs(m_b04(m)) <= 2 * MAT_MAX * MAT_MAX,
        sabs(m_b05(m)) <= 2 * MAT_MAX * MAT_MAX,
        sabs(m_b06(m)) <= 2 * MAT_MAX * MAT_MAX,
        sabs(m_b07(m)) <= 2 * MAT_MAX * MAT_MAX,
        sabs(m_b08(m)) <= 2 * MAT_MAX * MAT_MAX,
        sabs(m_b09(m)) <= 2 * MAT_MAX * MAT_MAX,
        sabs(m_b10(m)) <= 2 * MAT_MAX * MAT_MAX,
        sabs(m_b11(m)) <= 2 * MAT_MAX * MAT_MAX,
        sabs(det4_spec(m)) <= 0x2000_0000_0000_0000_0000_0000_0000,
        forall|k: int|
            0 <= k < 16 ==> sabs(#[trigger] adj_spec(m, k)) <= 0x10_0000_0000_0000_0000_0000,
        forall|p: int, q: int|
            sabs(p) <= 2 * MAT_MAX * MAT_MAX && sabs(q) <= 2 * MAT_MAX * MAT_MAX ==> sabs(
                #[trigger] (p * q),
            ) <= 4 * MAT_MAX * MAT_MAX * MAT_MAX * MAT_MAX,
        forall|i: int, q: int|
            0 <= i < 16 && sabs(q) <= 2 * MAT_MAX * MAT_MAX ==> sabs(#[trigger] (m.a@[i] * q)) <= 2
                * MAT_MAX * MAT_MAX * MAT_MAX,
{
    lemma_minor_fits(m);
    assert forall|p: int, q: int|
        sabs(p) <= 2 * MAT_MAX * MAT_MAX && sabs(q) <= 2 * MAT_MAX * MAT_MAX implies sabs(
        #[trigger] (p * q),
    ) <= 4 * MAT_MAX * MAT_MAX * MAT_MAX * MAT_MAX by {
        crate::vec3::lemma_prod_abs_le(p, q, 2 * MAT_MAX * MAT_MAX);
        assert((2 * MAT_MAX * MAT_MAX) * (2 * MAT_MAX * MAT_MAX) == 4 * MAT_MAX * MAT_MAX * MAT_MAX
            * MAT_MAX) by (nonlinear_arith);
    }
    assert forall|i: int, q: int|
        0 <= i < 16 && sabs(q) <= 2 * MAT_MAX * MAT_MAX implies sabs(#[trigger] (m.a@[i] * q)) <= 2
        * MAT_MAX * MAT_MAX * MAT_MAX by {
        assert(sabs(m.a@[i] * q) <= MAT_MAX * (2 * MAT_MAX * MAT_MAX) && MAT_MAX * (2 * MAT_MAX
            * MAT_MAX) == 2 * MAT_MAX * MAT_MAX * MAT_MAX) by (nonlinear_arith)
            requires
                sabs(m.a@[i] as int) <= MAT_MAX as int,
                sabs(q) <= 2 * MAT_MAX * MAT_MAX,
        ;
    }
}

/// One inverse entry, absent when it leaves the representable range.
fn inv_entry(m: &Mat4, k: usize, det4: i128) -> (r: Option<Fx>)
    requires
        mat_wf(*m),
        k < 16,
        det4 == det4_spec(*m),
        det4 != 0,
    ensures
        r.is_some() <==> sabs(inv_entry_spec(*m, k as int)) <= INV_MAX as int,
        r.is_some() ==> r.unwrap() == inv_entry_spec(*m, k as int),
{
    proof {
        lemma_det_fits(*m);
    }
    let adj: i128 = adj_exec(m, k);
    let num: i128 = adj * 0x1_0000_0000;
    proof {
        assert(adj_spec(*m, k as int) * SCALE * SCALE == adj_spec(*m, k as int) * 0x1_0000_0000)
            by (nonlinear_arith)
            requires
                SCALE == 65536,
        ;
    }
    let q: i128 = if det4 > 0 {
        crate::fx::tdiv_i128_pos(num, det4)
    } else {
        -crate::fx::tdiv_i128_pos(num, -det4)
    };
    if -(INV_MAX as i128) <= q && q <= INV_MAX as i128 {
        Some(q as i64)
    } else {
        None
    }
}

/// One adjugate entry, as a wide integer.
fn adj_exec(m: &Mat4, k: usize) -> (r: i128)
    requires
        mat_wf(*m),
        k < 16,
    ensures
        r == adj_spec(*m, k as int),
        sabs(r as int) <= 0x10_0000_0000_0000_0000_0000,
{
    proof {
        lemma_det_fits(*m);
    }
    let b = minors(m);
    match k {
        0 => (m.a[5] as i128) * b.11 - (m.a[6] as i128) * b.10 + (m.a[7] as i128) * b.9,
        1 => (m.a[2] as i128) * b.10 - (m.a[1] as i128) * b.11 - (m.a[3] as i128) * b.9,
        2 => (m.a[13] as i128) * b.5 - (m.a[14] as i128) * b.4 + (m.a[15] as i128) * b.3,
        3 => (m.a[10] as i128) * b.4 - (m.a[9] as i128) * b.5 - (m.a[11] as i128) * b.3,
        4 => (m.a[6] as i128) * b.8 - (m.a[4] as i128) * b.11 - (m.a[7] as i128) * b.7,
        5 => (m.a[0] as i128) * b.11 - (m.a[2] as i128) * b.8 + (m.a[3] as i128) * b.7,
        6 => (m.a[14] as i128) * b.2 - (m.a[12] as i128) * b.5 - (m.a[15] as i128) * b.1,
        7 => (m.a[8] as i128) * b.5 - (m.a[10] as i128) * b.2 + (m.a[11] as i128) * b.1,
        8 => (m.a[4] as i128) * b.10 - (m.a[5] as i128) * b.8 + (m.a[7] as i128) * b.6,
        9 => (m.a[1] as i128) * b.8 - (m.a[0] as i128) * b.10 - (m.a[3] as i128) * b.6,
        10 => (m.a[12] as i128) * b.4 - (m.a[13] as i128) * b.2 + (m.a[15] as i128) * b.0,
        11 => (m.a[9] as i128) * b.2 - (m.a[8] as i128) * b.4 - (m.a[11] as i128) * b.0,
        12 => (m.a[5] as i128) * b.7 - (m.a[4] as i128) * b.9 - (m.a[6] as i128) * b.6,
        13 => (m.a[0] as i128) * b.9 - (m.a[1] as i128) * b.7 + (m.a[2] as i128) * b.6,
        14 => (m.a[13] as i128) * b.1 - (m.a[12] as i128) * b.3 - (m.a[14] as i128) * b.0,
        _ => (m.a[8] as i128) * b.3 - (m.a[9] as i128) * b.1 + (m.a[10] as i128) * b.0,
    }
}

/// Unit-sized factors multiply safely and stay unit-sized.
proof fn lemma_unitish_fxm(p: int, q: int)
    requires
        sabs(p) <= SCALE,
        sabs(q) <= SCALE,
    ensures
        crate::fx::fits_op(p),
        crate::fx::fits_op(q),
        sabs(p) * sabs(q) <= crate::fx::OP_MAX * SCALE,
        sabs(fx_mul_spec(p, q)) <= SCALE,
{
    assert(sabs(p * q) <= SCALE * SCALE && sabs(p) * sabs(q) <= crate::fx::OP_MAX * SCALE)
        by (nonlinear_arith)
        requires
            sabs(p) <= SCALE,
            sabs(q) <= SCALE,
            SCALE == 65536,
    ;
    crate::vec3::lemma_tdiv_shrinks(p * q, SCALE as int, SCALE as int);
}

/// A unit-sized factor against one of twice that size stays within twice.
proof fn lemma_two_fxm(p: int, q: int)
    requires
        sabs(p) <= SCALE,
        sabs(q) <= 2 * SCALE,
    ensures
        crate::fx::fits_op(p),
        crate::fx::fits_op(q),
        sabs(p) * sabs(q) <= crate::fx::OP_MAX * SCALE,
        sabs(fx_mul_spec(p, q)) <= 2 * SCALE,
{
    assert(sabs(p * q) <= 2 * SCALE * SCALE && sabs(p) * sabs(q) <= crate::fx::OP_MAX * SCALE)
        by (nonlinear_arith)
        requires
            sabs(p) <= SCALE,
            sabs(q) <= 2 * SCALE,
            SCALE == 65536,
    ;
    crate::vec3::lemma_tdiv_shrinks(p * q, SCALE as int, 2 * SCALE as int);
}

/// A transform together with its inverse and determinant, computed once.
#[derive(Clone, Copy, Debug)]
pub struct Mat4Cached {
    origin: Mat4,
    inversed: Mat4,
    determinant: Fx,
    has_inverse: bool,
}

impl Mat4Cached {
    /// Cache the inverse and the determinant of a transform. A transform
    /// with an entry out of range, or with no usable inverse, is remembered
    /// as degenerate.
    pub fn new(matrix: Mat4) -> (r: Mat4Cached)
        ensures
            r.origin_spec() == matrix,
            r.cached_wf(),
            mat_wf(matrix) ==> r.cached_invertible() == mat_invertible(matrix),
    {
        if !matrix.is_wf() {
            return Mat4Cached {
                origin: matrix,
                inversed: Mat4::zero(),
                determinant: 0,
                has_inverse: false,
            };
        }
        let det = matrix.determinant();
        match matrix.inversed() {
            Some(inversed) => Mat4Cached { origin: matrix, inversed, determinant: det, has_inverse: true },
            None => Mat4Cached {
                origin: matrix,
                inversed: Mat4::zero(),
                determinant: det,
                has_inverse: false,
            },
        }
    }

    /// The stored transform.
    pub closed spec fn origin_spec(&self) -> Mat4 {
        self.origin
    }

    /// Whether a usable inverse was found.
    pub closed spec fn cached_invertible(&self) -> bool {
        self.has_inverse
    }

    /// The entries of the stored inverse.
    pub closed spec fn inverse_entries(&self) -> [Fx; 16] {
        self.inversed.a
    }

    /// The stored determinant.
    pub closed spec fn determinant_value(&self) -> Fx {
        self.determinant
    }

    /// The cache is consistent: where an inverse is recorded the transform
    /// is well formed and invertible, and the stored inverse entries are
    /// the true ones, within range.
    pub closed spec fn cached_wf(&self) -> bool {
        self.has_inverse ==> {
            &&& mat_wf(self.origin)
            &&& mat_invertible(self.origin)
            &&& forall|k: int|
                0 <= k < 16 ==> #[trigger] self.inversed.a@[k] == inv_entry_spec(self.origin, k)
            &&& forall|k: int|
                0 <= k < 16 ==> sabs(#[trigger] self.inversed.a@[k] as int) <= INV_MAX as int
        }
    }

    /// The stored transform, by reference.
    pub fn origin(&self) -> (r: &Mat4)
        ensures
            *r == self.origin_spec(),
    {
        &self.origin
    }

    /// The stored inverse, absent for a degenerate transform.
    pub fn inversed(&self) -> (r: Option<&Mat4>)
        ensures
            r.is_some() == self.cached_invertible(),
            r.is_some() ==> r.unwrap().a == self.inverse_entries(),
            (self.cached_wf() && r.is_some()) ==> mat_invertible(self.origin_spec()) && mat_wf(
                self.origin_spec(),
            ),
            (self.cached_wf() && r.is_some()) ==> forall|k: int|
                0 <= k < 16 ==> #[trigger] r.unwrap().a@[k] == inv_entry_spec(
                    self.origin_spec(),
                    k,
                ) && sabs(r.unwrap().a@[k] as int) <= INV_MAX as int,
    {
        if self.has_inverse {
            Some(&self.inversed)
        } else {
            None
        }
    }

    /// The stored determinant.
    pub fn determinant(&self) -> (r: Fx)
        ensures
            r == self.determinant_value(),
    {
        self.determinant
    }
}


/// The shape of a translation matrix.
pub open spec fn is_translation(m: Mat4, o: Vec3) -> bool {
    m.a@ =~= seq![ONE, 0, 0, 0, 0, ONE, 0, 0, 0, 0, ONE, 0, o.x, o.y, o.z, ONE]
}

/// A translation is invertible and its inverse is the opposite
/// translation, exactly.
pub proof fn lemma_translation_inverse(m: Mat4, o: Vec3)
    requires
        is_translation(m, o),
        b3(o, MAT_MAX as int),
    ensures
        det4_spec(m) != 0,
        inv_entry_spec(m, 0) == ONE && inv_entry_spec(m, 5) == ONE && inv_entry_spec(m, 10) == ONE
            && inv_entry_spec(m, 15) == ONE,
        inv_entry_spec(m, 12) == -o.x && inv_entry_spec(m, 13) == -o.y && inv_entry_spec(m, 14)
            == -o.z,
        inv_entry_spec(m, 1) == 0 && inv_entry_spec(m, 2) == 0 && inv_entry_spec(m, 3) == 0,
        inv_entry_spec(m, 4) == 0 && inv_entry_spec(m, 6) == 0 && inv_entry_spec(m, 7) == 0,
        inv_entry_spec(m, 8) == 0 && inv_entry_spec(m, 9) == 0 && inv_entry_spec(m, 11) == 0,
        mat_invertible(m),
{
    let s = SCALE as int;
    let s2 = s * s;
    let s4 = s2 * s2;
    assert(m_b00(m) == s * s && m_b01(m) == 0 && m_b02(m) == 0 && m_b03(m) == 0 && m_b04(m) == 0
        && m_b05(m) == 0) by (nonlinear_arith)
        requires
            is_translation(m, o),
            SCALE == 65536,
            ONE == 65536,
            s == SCALE as int,
    ;
    assert(m_b06(m) == o.y * 0 - 0 * o.x && m_b07(m) == 0 * o.z - s * o.x && m_b08(m) == 0 * s - 0
        * o.x && m_b09(m) == 0 * o.z - s * o.y && m_b10(m) == 0 * s - 0 * o.y && m_b11(m) == s * s
        - 0 * o.z) by (nonlinear_arith)
        requires
            is_translation(m, o),
            SCALE == 65536,
            ONE == 65536,
            s == SCALE as int,
    ;
    assert(m_b06(m) == 0 && m_b07(m) == -(s * o.x) && m_b08(m) == 0 && m_b09(m) == -(s * o.y)
        && m_b10(m) == 0 && m_b11(m) == s2) by (nonlinear_arith)
        requires
            m_b06(m) == o.y * 0 - 0 * o.x,
            m_b07(m) == 0 * o.z - s * o.x,
            m_b08(m) == 0 * s - 0 * o.x,
            m_b09(m) == 0 * o.z - s * o.y,
            m_b10(m) == 0 * s - 0 * o.y,
            m_b11(m) == s * s - 0 * o.z,
            s2 == s * s,
    ;
    assert(det4_spec(m) == s4) by (nonlinear_arith)
        requires
            m_b00(m) == s2 && m_b01(m) == 0 && m_b02(m) == 0 && m_b03(m) == 0 && m_b04(m) == 0
                && m_b05(m) == 0,
            m_b06(m) == 0 && m_b07(m) == -(s * o.x) && m_b08(m) == 0 && m_b09(m) == -(s * o.y)
                && m_b10(m) == 0 && m_b11(m) == s2,
            s2 == s * s,
            s4 == s2 * s2,
            s == 65536,
    ;
    assert(s4 > 0) by (nonlinear_arith)
        requires
            s4 == s2 * s2,
            s2 == s * s,
            s == 65536,
    ;
    lemma_translation_entries(m, o, s, s2, s4);
    assert forall|k: int| 0 <= k < 16 implies sabs(#[trigger] inv_entry_spec(m, k))
        <= INV_MAX as int by {
        if k == 0 || k == 5 || k == 10 || k == 15 {
            assert(sabs(inv_entry_spec(m, k)) == ONE);
        } else if k == 12 {
            assert(inv_entry_spec(m, k) == -o.x);
        } else if k == 13 {
            assert(inv_entry_spec(m, k) == -o.y);
        } else if k == 14 {
            assert(inv_entry_spec(m, k) == -o.z);
        } else {
            assert(inv_entry_spec(m, k) == 0);
        }
    }
}

/// The adjugate pattern of a translation, entry by entry.
proof fn lemma_translation_entries(m: Mat4, o: Vec3, s: int, s2: int, s4: int)
    requires
        is_translation(m, o),
        b3(o, MAT_MAX as int),
        s == SCALE as int,
        s2 == s * s,
        s4 == s2 * s2,
        SCALE == 65536,
        ONE == 65536,
        m_b00(m) == s2 && m_b01(m) == 0 && m_b02(m) == 0 && m_b03(m) == 0 && m_b04(m) == 0
            && m_b05(m) == 0,
        m_b06(m) == 0 && m_b07(m) == -(s * o.x) && m_b08(m) == 0 && m_b09(m) == -(s * o.y)
            && m_b10(m) == 0 && m_b11(m) == s2,
        det4_spec(m) == s4,
    ensures
        inv_entry_spec(m, 0) == ONE && inv_entry_spec(m, 5) == ONE && inv_entry_spec(m, 10) == ONE
            && inv_entry_spec(m, 15) == ONE,
        inv_entry_spec(m, 12) == -o.x && inv_entry_spec(m, 13) == -o.y && inv_entry_spec(m, 14)
            == -o.z,
        inv_entry_spec(m, 1) == 0 && inv_entry_spec(m, 2) == 0 && inv_entry_spec(m, 3) == 0,
        inv_entry_spec(m, 4) == 0 && inv_entry_spec(m, 6) == 0 && inv_entry_spec(m, 7) == 0,
        inv_entry_spec(m, 8) == 0 && inv_entry_spec(m, 9) == 0 && inv_entry_spec(m, 11) == 0,
{
    assert(m.a@[0] == 65536 && m.a@[1] == 0 && m.a@[2] == 0 && m.a@[3] == 0 && m.a@[4] == 0
        && m.a@[5] == 65536 && m.a@[6] == 0 && m.a@[7] == 0 && m.a@[8] == 0 && m.a@[9] == 0
        && m.a@[10] == 65536 && m.a@[11] == 0 && m.a@[12] == o.x && m.a@[13] == o.y && m.a@[14]
        == o.z && m.a@[15] == 65536);
    lemma_adj_linear(
        m.a@[0] as int,
        m.a@[5] as int,
        m.a@[10] as int,
        m.a@[15] as int,
        o.x as int,
        o.y as int,
        o.z as int,
        m,
        s,
        s2,
    );
    lemma_sdiv_exact(s * s2, s, s2, s4);
    lemma_sdiv_zero(s, s2, s4);
    lemma_sdiv_neg(o.x as int, s, s2, s4);
    lemma_sdiv_neg(o.y as int, s, s2, s4);
    lemma_sdiv_neg(o.z as int, s, s2, s4);
}

/// The sixteen adjugate entries of a translation, computed.
proof fn lemma_adj_linear(
    d0: int,
    d5: int,
    d10: int,
    d15: int,
    ox: int,
    oy: int,
    oz: int,
    m: Mat4,
    s: int,
    s2: int,
)
    by (nonlinear_arith)
    requires
        s == 65536,
        s2 == s * s,
        d0 == 65536 && d5 == 65536 && d10 == 65536 && d15 == 65536,
        m.a@[0] == 65536 && m.a@[1] == 0 && m.a@[2] == 0 && m.a@[3] == 0,
        m.a@[4] == 0 && m.a@[5] == 65536 && m.a@[6] == 0 && m.a@[7] == 0,
        m.a@[8] == 0 && m.a@[9] == 0 && m.a@[10] == 65536 && m.a@[11] == 0,
        m.a@[12] == ox && m.a@[13] == oy && m.a@[14] == oz && m.a@[15] == 65536,
        m_b00(m) == s2 && m_b01(m) == 0 && m_b02(m) == 0 && m_b03(m) == 0 && m_b04(m) == 0
            && m_b05(m) == 0,
        m_b06(m) == 0 && m_b07(m) == -(s * ox) && m_b08(m) == 0 && m_b09(m) == -(s * oy)
            && m_b10(m) == 0 && m_b11(m) == s2,
    ensures
        adj_spec(m, 0) == s * s2 && adj_spec(m, 5) == s * s2 && adj_spec(m, 10) == s * s2
            && adj_spec(m, 15) == s * s2,
        adj_spec(m, 1) == 0 && adj_spec(m, 2) == 0 && adj_spec(m, 3) == 0 && adj_spec(m, 4) == 0
            && adj_spec(m, 6) == 0 && adj_spec(m, 7) == 0 && adj_spec(m, 8) == 0 && adj_spec(m, 9)
            == 0 && adj_spec(m, 11) == 0,
        adj_spec(m, 12) == -(s2 * ox) && adj_spec(m, 13) == -(s2 * oy) && adj_spec(m, 14) == -(s2
            * oz),
{
}

proof fn lemma_sdiv_exact(num: int, s: int, s2: int, s4: int)
    requires
        s == 65536,
        s2 == s * s,
        s4 == s2 * s2,
        num == s * s2,
    ensures
        sdiv(num * SCALE * SCALE, s4) == 65536,
{
    assert(num * SCALE * SCALE == 65536 * s4 && s4 > 0) by (nonlinear_arith)
        requires
            num == s * s2,
            s == 65536,
            s2 == s * s,
            s4 == s2 * s2,
            SCALE == 65536,
    ;
    crate::fx::lemma_tdiv_mul_cancel(65536, s4);
}

proof fn lemma_sdiv_zero(s: int, s2: int, s4: int)
    requires
        s == 65536,
        s2 == s * s,
        s4 == s2 * s2,
    ensures
        sdiv(0 * SCALE * SCALE, s4) == 0,
{
    assert(s4 > 0 && 0 * SCALE * SCALE == 0 * s4) by (nonlinear_arith)
        requires
            s == 65536,
            s2 == s * s,
            s4 == s2 * s2,
            SCALE == 65536,
    ;
    crate::fx::lemma_tdiv_mul_cancel(0, s4);
}

proof fn lemma_sdiv_neg(c: int, s: int, s2: int, s4: int)
    requires
        s == 65536,
        s2 == s * s,
        s4 == s2 * s2,
    ensures
        sdiv(-(s2 * c) * SCALE * SCALE, s4) == -c,
{
    assert(-(s2 * c) * SCALE * SCALE == (-c) * s4 && s4 > 0) by (nonlinear_arith)
        requires
            s == 65536,
            s2 == s * s,
            s4 == s2 * s2,
            SCALE == 65536,
    ;
    crate::fx::lemma_tdiv_mul_cancel(-c, s4);
}

/// Applying a translation to a point and then the opposite translation
/// gives the point back exactly, so a transform round trip through the
/// cached inverse is the identity for every translation placement.
pub proof fn lemma_translation_round_trip(m: Mat4, mi: Mat4, o: Vec3, p: crate::vec4::Vec4)
    requires
        is_translation(m, o),
        is_translation(mi, Vec3 { x: (-o.x) as i64, y: (-o.y) as i64, z: (-o.z) as i64 }),
        b3(o, MAT_MAX as int),
        p.w == ONE,
        crate::vec4::b4(p, MAT_MAX as int),
    ensures
        crate::vec4::xform_comp(
            crate::vec4::Vec4 {
                x: crate::vec4::xform_comp(p, m, 0) as i64,
                y: crate::vec4::xform_comp(p, m, 1) as i64,
                z: crate::vec4::xform_comp(p, m, 2) as i64,
                w: ONE,
            },
            mi,
            0,
        ) == p.x,
        crate::vec4::xform_comp(
            crate::vec4::Vec4 {
                x: crate::vec4::xform_comp(p, m, 0) as i64,
                y: crate::vec4::xform_comp(p, m, 1) as i64,
                z: crate::vec4::xform_comp(p, m, 2) as i64,
                w: ONE,
            },
            mi,
            1,
        ) == p.y,
        crate::vec4::xform_comp(
            crate::vec4::Vec4 {
                x: crate::vec4::xform_comp(p, m, 0) as i64,
                y: crate::vec4::xform_comp(p, m, 1) as i64,
                z: crate::vec4::xform_comp(p, m, 2) as i64,
                w: ONE,
            },
            mi,
            2,
        ) == p.z,
{
    lemma_translate_comp(p.x as int, o.x as int);
    lemma_translate_comp(p.y as int, o.y as int);
    lemma_translate_comp(p.z as int, o.z as int);
    assert(crate::vec4::xform_comp(p, m, 0) == p.x + o.x && crate::vec4::xform_comp(p, m, 1) == p.y
        + o.y && crate::vec4::xform_comp(p, m, 2) == p.z + o.z) by {
        assert(m.a@[0] * p.x + m.a@[4] * p.y + m.a@[8] * p.z + m.a@[12] * p.w == (p.x + o.x)
            * SCALE) by (nonlinear_arith)
            requires
                is_translation(m, o),
                p.w == ONE,
                ONE == 65536,
                SCALE == 65536,
        ;
        assert(m.a@[1] * p.x + m.a@[5] * p.y + m.a@[9] * p.z + m.a@[13] * p.w == (p.y + o.y)
            * SCALE) by (nonlinear_arith)
            requires
                is_translation(m, o),
                p.w == ONE,
                ONE == 65536,
                SCALE == 65536,
        ;
        assert(m.a@[2] * p.x + m.a@[6] * p.y + m.a@[10] * p.z + m.a@[14] * p.w == (p.z + o.z)
            * SCALE) by (nonlinear_arith)
            requires
                is_translation(m, o),
                p.w == ONE,
                ONE == 65536,
                SCALE == 65536,
        ;
        crate::fx::lemma_tdiv_mul_cancel(p.x + o.x, SCALE as int);
        crate::fx::lemma_tdiv_mul_cancel(p.y + o.y, SCALE as int);
        crate::fx::lemma_tdiv_mul_cancel(p.z + o.z, SCALE as int);
    }
    let q = crate::vec4::Vec4 {
        x: crate::vec4::xform_comp(p, m, 0) as i64,
        y: crate::vec4::xform_comp(p, m, 1) as i64,
        z: crate::vec4::xform_comp(p, m, 2) as i64,
        w: ONE,
    };
    assert(q.x == p.x + o.x && q.y == p.y + o.y && q.z == p.z + o.z);
    assert(mi.a@[0] * q.x + mi.a@[4] * q.y + mi.a@[8] * q.z + mi.a@[12] * q.w == (p.x as int)
        * SCALE) by (nonlinear_arith)
        requires
            is_translation(mi, Vec3 { x: (-o.x) as i64, y: (-o.y) as i64, z: (-o.z) as i64 }),
            q.w == ONE,
            ONE == 65536,
            SCALE == 65536,
            q.x == p.x + o.x,
            b3(o, MAT_MAX as int),
            crate::vec4::b4(p, MAT_MAX as int),
    ;
    assert(mi.a@[1] * q.x + mi.a@[5] * q.y + mi.a@[9] * q.z + mi.a@[13] * q.w == (p.y as int)
        * SCALE) by (nonlinear_arith)
        requires
            is_translation(mi, Vec3 { x: (-o.x) as i64, y: (-o.y) as i64, z: (-o.z) as i64 }),
            q.w == ONE,
            ONE == 65536,
            SCALE == 65536,
            q.y == p.y + o.y,
            b3(o, MAT_MAX as int),
            crate::vec4::b4(p, MAT_MAX as int),
    ;
    assert(mi.a@[2] * q.x + mi.a@[6] * q.y + mi.a@[10] * q.z + mi.a@[14] * q.w == (p.z as int)
        * SCALE) by (nonlinear_arith)
        requires
            is_translation(mi, Vec3 { x: (-o.x) as i64, y: (-o.y) as i64, z: (-o.z) as i64 }),
            q.w == ONE,
            ONE == 65536,
            SCALE == 65536,
            q.z == p.z + o.z,
            b3(o, MAT_MAX as int),
            crate::vec4::b4(p, MAT_MAX as int),
    ;
    crate::fx::lemma_tdiv_mul_cancel(p.x as int, SCALE as int);
    crate::fx::lemma_tdiv_mul_cancel(p.y as int, SCALE as int);
    crate::fx::lemma_tdiv_mul_cancel(p.z as int, SCALE as int);
}

proof fn lemma_translate_comp(x: int, o: int)
    by (nonlinear_arith)
    requires
        sabs(x) <= MAT_MAX as int,
        sabs(o) <= MAT_MAX as int,
    ensures
        sabs(x + o) <= 2 * MAT_MAX,
{
}

} // verus!

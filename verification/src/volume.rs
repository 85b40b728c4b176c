//! A participating medium: a boundary geometry filled with uniformly
//! scattering matter of constant density.

use vstd::prelude::*;

use std::sync::Arc;

use crate::fx::sabs;
use crate::fx::tdiv;
use crate::fx::Fx;
use crate::fx::SCALE;
use crate::scene::Object;

verus! {

/// The natural logarithm of two, on the scalar grid.
pub const LN2_FX: i64 = 45426;

/// A boundary filled with fog of the given density.
#[derive(Debug)]
pub struct ConstantMedium {
    pub boundary: Arc<Object>,
    pub density: Fx,
}

impl ConstantMedium {
    pub fn new(boundary: Arc<Object>, density: Fx) -> (r: ConstantMedium)
        ensures
            r.boundary == boundary,
            r.density == density,
    {
        ConstantMedium { boundary, density }
    }

    pub fn boundary(&self) -> (r: &Arc<Object>)
        ensures
            *r == self.boundary,
    {
        &self.boundary
    }

    pub fn density(&self) -> (r: Fx)
        ensures
            r == self.density,
    {
        self.density
    }
}

/// The negated logarithm of a scalar in the unit interval: whole octaves
/// counted by doubling, at most seventeen of them, and a rational
/// approximation on the last one.
pub open spec fn neg_ln_fuel(u: int, fuel: nat) -> int
    decreases fuel,
{
    if fuel == 0 || u >= SCALE {
        0
    } else if 2 * u < SCALE {
        LN2_FX + neg_ln_fuel(2 * u, (fuel - 1) as nat)
    } else {
        LN2_FX + tdiv(2 * (2 * SCALE - 2 * u) * SCALE, 2 * u + SCALE)
    }
}

pub open spec fn neg_ln_spec(u: int) -> int {
    neg_ln_fuel(u, 17)
}

/// The free path drawn from one uniform sample: the negated logarithm over
/// the density.
pub open spec fn free_path_spec(u: int, density: int) -> int
    recommends
        density >= 1,
{
    crate::fx::fx_div_spec(neg_ln_spec(u), density)
}

/// The negated logarithm stays within its octave budget.
pub proof fn lemma_neg_ln_bounds(u: int, fuel: nat)
    requires
        u >= 0,
    ensures
        0 <= neg_ln_fuel(u, fuel) <= fuel * LN2_FX + 2 * SCALE,
    decreases fuel,
{
    if fuel == 0 || u >= SCALE {
    } else if 2 * u < SCALE {
        lemma_neg_ln_bounds(2 * u, (fuel - 1) as nat);
    } else {
        assert(0 <= tdiv(2 * (2 * SCALE - 2 * u) * SCALE, 2 * u + SCALE) <= 2 * SCALE)
            by (nonlinear_arith)
            requires
                2 * u >= SCALE,
                u < SCALE,
                SCALE == 65536,
        ;
    }
}

/// The negated logarithm, executably.
pub fn neg_ln_unit(u: Fx) -> (r: Fx)
    requires
        1 <= u <= SCALE,
    ensures
        r == neg_ln_spec(u as int),
        0 <= r <= 17 * LN2_FX + 2 * SCALE,
{
    proof {
        lemma_neg_ln_bounds(u as int, 17);
    }
    neg_ln_step(u, 17)
}

fn neg_ln_step(u: Fx, fuel: u8) -> (r: Fx)
    requires
        1 <= u <= SCALE,
        fuel <= 17,
    ensures
        r == neg_ln_fuel(u as int, fuel as nat),
        0 <= r <= fuel * LN2_FX + 2 * SCALE,
    decreases fuel,
{
    proof {
        lemma_neg_ln_bounds(u as int, fuel as nat);
    }
    if fuel == 0 || u >= SCALE {
        0
    } else if 2 * u < SCALE {
        LN2_FX + neg_ln_step(2 * u, fuel - 1)
    } else {
        let num: i128 = 2 * ((2 * SCALE as i128) - 2 * (u as i128)) * (SCALE as i128);
        let q = crate::fx::tdiv_i128_pos(num, 2 * (u as i128) + (SCALE as i128));
        proof {
            assert(0 <= tdiv(2 * (2 * SCALE - 2 * (u as int)) * SCALE, 2 * u + SCALE) <= 2 * SCALE)
                by (nonlinear_arith)
                requires
                    2 * u >= SCALE,
                    1 <= u < SCALE,
                    SCALE == 65536,
            ;
        }
        LN2_FX + (q as i64)
    }
}

} // verus!

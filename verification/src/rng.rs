//! A small deterministic pseudo-random generator.
//!
//! Sampling jitter, scatter directions and free-path lengths all draw from
//! this generator, so a render seeded with a fixed value is a pure function
//! of its inputs. Fresh entropy for unseeded use comes through `util`.

use vstd::prelude::*;

use crate::fx::Fx;
use crate::fx::SCALE;

verus! {

/// The multiplier of the linear congruential step.
pub const LCG_MUL: u64 = 6364136223846793005;

/// The increment of the linear congruential step.
pub const LCG_ADD: u64 = 1442695040888963407;

/// One step of the generator.
#[verifier::opaque]
pub open spec fn lcg_next(s: u64) -> int {
    ((s * LCG_MUL) % 0x1_0000_0000_0000_0000 + LCG_ADD) % 0x1_0000_0000_0000_0000
}

/// The signed unit sample one step of the generator yields.
pub open spec fn signed_unit_of(s: u64) -> Fx {
    (2 * (((lcg_next(s) as u64) >> 48) as i64) - SCALE) as i64
}

/// The unit sample one step of the generator yields.
pub open spec fn unit_of(s: u64) -> Fx {
    ((lcg_next(s) as u64) >> 48) as i64
}

/// A linear congruential generator with 64 bits of state.
#[derive(Clone, Copy, Debug, PartialEq, Eq, Structural)]
pub struct Lcg {
    pub state: u64,
}

impl Lcg {
    pub fn new(seed: u64) -> (r: Lcg)
        ensures
            r.state == seed,
    {
        Lcg { state: seed }
    }

    /// Advance the state and hand back its upper bits, which are the best
    /// mixed ones of this generator family.
    pub fn next_u64(&mut self) -> (r: u64)
        ensures
            final(self).state == lcg_next(old(self).state),
            r == (lcg_next(old(self).state) as u64) >> 16,
    {
        proof {
            reveal(lcg_next);
        }
        let s = self.state.wrapping_mul(LCG_MUL).wrapping_add(LCG_ADD);
        self.state = s;
        s >> 16
    }

    /// A scalar drawn uniformly from `[0, 1)` on the fixed-point grid.
    pub fn next_unit(&mut self) -> (r: Fx)
        ensures
            final(self).state == lcg_next(old(self).state),
            0 <= r < SCALE,
            r == ((lcg_next(old(self).state) as u64) >> 48) as i64,
            (lcg_next(old(self).state) as u64) >> 48 < 0x1_0000,
            r == unit_of(old(self).state),
    {
        proof {
            reveal(lcg_next);
        }
        let s = self.state.wrapping_mul(LCG_MUL).wrapping_add(LCG_ADD);
        self.state = s;
        let top: u64 = s >> 48;
        proof {
            assert(s >> 48 < 0x1_0000u64) by (bit_vector);
        }
        top as i64
    }

    /// A scalar drawn uniformly from `[-1, 1)` on the fixed-point grid.
    pub fn next_signed_unit(&mut self) -> (r: Fx)
        ensures
            final(self).state == lcg_next(old(self).state),
            -SCALE <= r < SCALE,
            r == signed_unit_of(old(self).state),
    {
        let u = self.next_unit();
        2 * u - SCALE
    }
}

} // verus!

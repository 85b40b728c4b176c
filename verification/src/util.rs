//! Random direction sampling, and the one bridge to outside entropy.

use vstd::prelude::*;

use crate::fx::tdiv;
use crate::fx::ONE;
use crate::fx::SCALE;
use crate::rng::Lcg;
use crate::vec3::b3;
use crate::vec3::dot3;
use crate::vec3::Vec3;

verus! {

/// Relies on std::sync::Arc::clone: the clone is another handle on the
/// same shared value.
#[verifier::external_body]
pub fn share<T>(v: &std::sync::Arc<T>) -> (r: std::sync::Arc<T>)
    ensures
        r == *v,
{
    std::sync::Arc::clone(v)
}

/// Relies on rand::random::<u64>: a fresh machine-entropy seed; nothing is
/// promised of its value. The call can abort only if the operating system
/// fails to supply entropy when the thread's generator is first set up, an
/// environmental failure of the same kind as an allocation failure.
#[verifier::external_body]
pub fn fresh_seed() -> u64 {
    rand::random::<u64>()
}

/// One attempt round of ball rejection: the three coordinates drawn from
/// three generator steps.
pub open spec fn cube_sample(s: u64) -> (Vec3, u64) {
    let x = crate::rng::signed_unit_of(s);
    let s1 = crate::rng::lcg_next(s) as u64;
    let y = crate::rng::signed_unit_of(s1);
    let s2 = crate::rng::lcg_next(s1) as u64;
    let z = crate::rng::signed_unit_of(s2);
    let s3 = crate::rng::lcg_next(s2) as u64;
    (Vec3 { x, y, z }, s3)
}

/// Rejection sampling from the unit ball: cube samples are drawn until one
/// falls strictly inside, for at most the given number of tries; after the
/// last the centre stands in.
pub open spec fn unit_sphere_fuel(s: u64, fuel: nat) -> (Vec3, u64)
    decreases fuel,
{
    if fuel == 0 {
        (Vec3 { x: 0, y: 0, z: 0 }, s)
    } else {
        let (p, s3) = cube_sample(s);
        if dot3(p, p) < ONE {
            (p, s3)
        } else {
            unit_sphere_fuel(s3, (fuel - 1) as nat)
        }
    }
}

pub open spec fn unit_sphere_spec(s: u64) -> (Vec3, u64) {
    unit_sphere_fuel(s, 16)
}

/// One attempt round of disk rejection: two coordinates in the plane.
pub open spec fn disk_sample(s: u64) -> (Vec3, u64) {
    let x = crate::rng::signed_unit_of(s);
    let s1 = crate::rng::lcg_next(s) as u64;
    let y = crate::rng::signed_unit_of(s1);
    let s2 = crate::rng::lcg_next(s1) as u64;
    (Vec3 { x, y, z: 0 }, s2)
}

/// Rejection sampling from the unit disk, the same way.
pub open spec fn unit_disk_fuel(s: u64, fuel: nat) -> (Vec3, u64)
    decreases fuel,
{
    if fuel == 0 {
        (Vec3 { x: 0, y: 0, z: 0 }, s)
    } else {
        let (p, s2) = disk_sample(s);
        if dot3(p, p) < ONE {
            (p, s2)
        } else {
            unit_disk_fuel(s2, (fuel - 1) as nat)
        }
    }
}

pub open spec fn unit_disk_spec(s: u64) -> (Vec3, u64) {
    unit_disk_fuel(s, 16)
}

/// A point strictly inside the unit ball has every coordinate strictly
/// inside the unit interval.
proof fn lemma_inside_ball_coords(p: Vec3)
    requires
        -SCALE <= p.x <= SCALE,
        -SCALE <= p.y <= SCALE,
        -SCALE <= p.z <= SCALE,
        dot3(p, p) < ONE,
    ensures
        b3(p, SCALE - 1),
{
    let sum = p.x * p.x + p.y * p.y + p.z * p.z;
    assert(p.x * p.x >= 0 && p.y * p.y >= 0 && p.z * p.z >= 0) by (nonlinear_arith);
    assert(sum < SCALE * SCALE) by (nonlinear_arith)
        requires
            sum >= 0,
            tdiv(sum, SCALE as int) < SCALE,
            SCALE == 65536,
    ;
    assert(crate::fx::sabs(p.x as int) <= SCALE - 1 && crate::fx::sabs(p.y as int) <= SCALE - 1
        && crate::fx::sabs(p.z as int) <= SCALE - 1) by (nonlinear_arith)
        requires
            p.x * p.x <= sum,
            p.y * p.y <= sum,
            p.z * p.z <= sum,
            sum < SCALE * SCALE,
            SCALE == 65536,
    ;
}

/// A point drawn from the open unit ball, by rejection from the cube with
/// a bounded number of tries; after the last try the centre is returned.
#[allow(non_snake_case)]
pub fn randomInUnitSphere(generator: &mut Lcg) -> (r: Vec3)
    ensures
        (r, final(generator).state) == unit_sphere_spec(old(generator).state),
        b3(r, SCALE - 1),
        dot3(r, r) < ONE,
{
    sphere_step(generator, 16)
}

fn sphere_step(generator: &mut Lcg, fuel: u8) -> (r: Vec3)
    ensures
        (r, final(generator).state) == unit_sphere_fuel(old(generator).state, fuel as nat),
        b3(r, SCALE - 1),
        dot3(r, r) < ONE,
    decreases fuel,
{
    if fuel == 0 {
        return Vec3::new(0, 0, 0);
    }
    let p = Vec3::new(
        generator.next_signed_unit(),
        generator.next_signed_unit(),
        generator.next_signed_unit(),
    );
    let d = p.dot(&p);
    if d < ONE {
        proof {
            lemma_inside_ball_coords(p);
        }
        p
    } else {
        sphere_step(generator, fuel - 1)
    }
}

/// A point drawn from the open unit disk in the x-y plane, the same way.
#[allow(non_snake_case)]
pub fn randomInUnitDisk(generator: &mut Lcg) -> (r: Vec3)
    ensures
        (r, final(generator).state) == unit_disk_spec(old(generator).state),
        b3(r, SCALE - 1),
        dot3(r, r) < ONE,
        r.z == 0,
{
    disk_step(generator, 16)
}

fn disk_step(generator: &mut Lcg, fuel: u8) -> (r: Vec3)
    ensures
        (r, final(generator).state) == unit_disk_fuel(old(generator).state, fuel as nat),
        b3(r, SCALE - 1),
        dot3(r, r) < ONE,
        r.z == 0,
    decreases fuel,
{
    if fuel == 0 {
        return Vec3::new(0, 0, 0);
    }
    let p = Vec3::new(generator.next_signed_unit(), generator.next_signed_unit(), 0);
    let d = p.dot(&p);
    if d < ONE {
        proof {
            lemma_inside_ball_coords(p);
        }
        p
    } else {
        disk_step(generator, fuel - 1)
    }
}

} // verus!

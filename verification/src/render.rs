//! The recursive integrator: follow a ray through bounces until it is
//! absorbed, leaves the scene, or the depth budget runs out.

use vstd::prelude::*;

use crate::fx::fx_mul_spec;
use crate::fx::sabs;
use crate::fx::Fx;
use crate::fx::ONE;
use crate::fx::SCALE;
use crate::material::EMIT_MAX;
use crate::ray::ray_bounded;
use crate::ray::Ray;
use crate::rng::Lcg;
use crate::scene::object_hit;
use crate::scene::object_wf;
use crate::scene::Object;
use crate::vec3::b3;
use crate::vec3::unit3;
use crate::vec3::Vec3;

verus! {

/// The channel cap of a radiance estimate at the given depth budget.
pub open spec fn color_bound(depth: int) -> int {
    depth * EMIT_MAX + 2 * SCALE
}

/// The sky a missed ray sees, as a colour vector.
pub open spec fn sky_vec(direction: Vec3) -> Vec3 {
    let c = sky_spec(direction);
    Vec3 { x: c.0 as i64, y: c.1 as i64, z: c.2 as i64 }
}

/// The radiance estimate and the generator state after one ray: black once
/// the depth budget is spent; at a hit, the material's emission plus its
/// attenuation times the scattered ray's radiance, or the emission alone
/// when the ray is absorbed; the sky on a miss.
#[verifier::opaque]
pub open spec fn color_spec(ray: Ray, world: Object, depth: int, s: u64) -> (Vec3, u64)
    decreases depth,
{
    if depth <= 0 {
        (Vec3 { x: 0, y: 0, z: 0 }, s)
    } else {
        let (h, s1) = crate::scene::object_hit_spec(world, ray, s);
        match h {
            Some(rec) => match rec.material {
                Some(m) => {
                    let e = crate::material::emitted_spec(*m, rec.uv, rec.intersection);
                    let (sc, s2) = crate::material::material_scatter_spec(*m, ray, rec, s1);
                    match sc {
                        Some(pair) => {
                            let (bounce, s3) = color_spec(pair.0, world, depth - 1, s2);
                            (
                                Vec3 {
                                    x: (e.x + fx_mul_spec(pair.1.x as int, bounce.x as int)) as i64,
                                    y: (e.y + fx_mul_spec(pair.1.y as int, bounce.y as int)) as i64,
                                    z: (e.z + fx_mul_spec(pair.1.z as int, bounce.z as int)) as i64,
                                },
                                s3,
                            )
                        },
                        None => (e, s2),
                    }
                },
                None => (Vec3 { x: 0, y: 0, z: 0 }, s1),
            },
            None => (sky_vec(ray.direction), s1),
        }
    }
}

/// The sky a missed ray sees: white at the horizon blending upward into
/// blue, by the height of the unit direction.
pub open spec fn sky_spec(direction: Vec3) -> (int, int, int) {
    let u = unit3(direction);
    let raw = (SCALE + u.1) / 2;
    let t = if raw < 0 {
        0
    } else if raw > SCALE {
        SCALE as int
    } else {
        raw
    };
    (
        (SCALE - t) + fx_mul_spec(32768, t),
        (SCALE - t) + fx_mul_spec(45875, t),
        (SCALE - t) + fx_mul_spec(65536, t),
    )
}

/// The radiance carried back along a ray: black once the depth budget is
/// spent; at a hit, the material's emission plus its attenuation times the
/// scattered ray's radiance, or the emission alone when the ray is
/// absorbed; the sky on a miss. Emitted light is added into the sum here,
/// so emitters contribute where a ray reaches them.
pub fn color(ray: &Ray, world: &Object, maxDepth: usize, generator: &mut Lcg) -> (r: Vec3)
    requires
        object_wf(*world),
        ray_bounded(*ray),
        maxDepth <= 128,
    ensures
        (r, final(generator).state) == color_spec(
            *ray,
            *world,
            maxDepth as int,
            old(generator).state,
        ),
        b3(r, color_bound(maxDepth as int)),
    decreases maxDepth,
{
    proof {
        reveal_with_fuel(color_spec, 2);
    }
    if maxDepth == 0 {
        return Vec3::new(0, 0, 0);
    }
    match object_hit(world, ray, generator) {
        Some(record) => {
            match record.material() {
                Some(m) => {
                    let material = crate::util::share(m);
                    let emitted = material.emitted(record.uv(), record.intersection());
                    match material.scatter(ray, &record, generator) {
                        Some((scattered, attenuation)) => {
                            let bounced = color(&scattered, world, maxDepth - 1, generator);
                            proof {
                                lemma_bounce_bound(attenuation, bounced, maxDepth as int);
                            }
                            let tinted = attenuation.hadamard(&bounced);
                            emitted.added(&tinted)
                        },
                        None => emitted,
                    }
                },
                None => Vec3::new(0, 0, 0),
            }
        },
        None => {
            let unit = ray.direction().normalized();
            let raw = (SCALE + unit.y) / 2;
            let t = if raw < 0 {
                0
            } else if raw > SCALE {
                SCALE
            } else {
                raw
            };
            proof {
                assert(0 <= t <= SCALE);
                crate::vec3::lemma_attenuation_shrinks(32768, t as int);
                crate::vec3::lemma_attenuation_shrinks(45875, t as int);
                crate::vec3::lemma_attenuation_shrinks(65536, t as int);
            }
            let white = SCALE - t;
            Vec3::new(
                white + crate::fx::fx_mul(32768, t),
                white + crate::fx::fx_mul(45875, t),
                white + crate::fx::fx_mul(65536, t),
            )
        },
    }
}

/// One bounce keeps the estimate within the next depth's cap.
proof fn lemma_bounce_bound(attenuation: Vec3, bounced: Vec3, depth: int)
    requires
        b3(attenuation, ONE as int),
        b3(bounced, color_bound(depth - 1)),
        1 <= depth <= 128,
    ensures
        b3(bounced, crate::fx::COORD_MAX as int),
        b3(attenuation, crate::fx::COORD_MAX as int),
        sabs(fx_mul_spec(attenuation.x as int, bounced.x as int)) <= color_bound(depth - 1),
        sabs(fx_mul_spec(attenuation.y as int, bounced.y as int)) <= color_bound(depth - 1),
        sabs(fx_mul_spec(attenuation.z as int, bounced.z as int)) <= color_bound(depth - 1),
{
    crate::vec3::lemma_attenuation_shrinks(bounced.x as int, attenuation.x as int);
    crate::vec3::lemma_attenuation_shrinks(bounced.y as int, attenuation.y as int);
    crate::vec3::lemma_attenuation_shrinks(bounced.z as int, attenuation.z as int);
}

} // verus!

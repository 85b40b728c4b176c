//! The pixel scheduler and the collector: scanlines are dealt to workers
//! round-robin, finished pixels come back tagged with their coordinates in
//! any order, and the collector places each into the framebuffer.

use vstd::prelude::*;

use crate::camera::camera_wf;
use crate::camera::PerspectiveCamera;
use crate::fx::Fx;
use crate::fx::SCALE;
use crate::ray::Ray;
use crate::render::color;
use crate::rng::Lcg;
use crate::scene::object_wf;
use crate::scene::Object;
use crate::vec3::Vec3;

verus! {

/// The bounce budget of every ray.
pub const MAX_DEPTH: usize = 32;

/// The generator seed of one pixel: the frame seed folded with the
/// pixel's cell index scrambled by an odd constant.
pub open spec fn pixel_seed(seed: u64, x: usize, y: usize) -> u64 {
    seed ^ (((y * 0x10000 + x) * 0x9E3779B97F4A7C15) % 0x1_0000_0000_0000_0000) as u64
}

/// A jittered film coordinate: the pixel index plus a unit sample, over
/// the frame extent.
pub open spec fn film_coord(p: usize, j: Fx, extent: usize) -> Fx {
    crate::fx::tdiv(p * SCALE + j, extent as int) as i64
}

/// One sample estimate of one pixel: the film point jittered by two draws,
/// the camera ray cast, the integrator run.
#[verifier::opaque]
pub open spec fn sample_step(
    world: Object,
    cam: PerspectiveCamera,
    width: usize,
    height: usize,
    x: usize,
    y: usize,
    s: u64,
) -> (Vec3, u64) {
    let ju = crate::rng::unit_of(s);
    let s1 = crate::rng::lcg_next(s) as u64;
    let jv = crate::rng::unit_of(s1);
    let s2 = crate::rng::lcg_next(s1) as u64;
    let (ray, s3) = crate::camera::camera_ray_spec(
        cam,
        film_coord(x, ju, width),
        film_coord(y, jv, height),
        s2,
    );
    crate::render::color_spec(ray, world, MAX_DEPTH as int, s3)
}

/// The sum of the first `n` sample estimates of one pixel, and the
/// generator state after them.
#[verifier::opaque]
pub open spec fn sample_sum(
    world: Object,
    cam: PerspectiveCamera,
    width: usize,
    height: usize,
    x: usize,
    y: usize,
    n: int,
    s: u64,
) -> (Vec3, u64)
    decreases n,
{
    if n <= 0 {
        (Vec3 { x: 0, y: 0, z: 0 }, s)
    } else {
        let (prev, s0) = sample_sum(world, cam, width, height, x, y, n - 1, s);
        let (c, s1) = sample_step(world, cam, width, height, x, y, s0);
        (crate::vec3::add_vec(prev, c), s1)
    }
}

/// The colour of one pixel: the average of its sample estimates, a
/// function of the scene, the camera, the sizes, the coordinates and the
/// frame seed alone.
#[verifier::opaque]
pub open spec fn pixel_spec(
    world: Object,
    cam: PerspectiveCamera,
    width: usize,
    height: usize,
    samples: usize,
    x: usize,
    y: usize,
    seed: u64,
) -> Vec3 {
    let (sum, _) = sample_sum(
        world,
        cam,
        width,
        height,
        x,
        y,
        samples as int,
        pixel_seed(seed, x, y),
    );
    Vec3 {
        x: crate::fx::tdiv(sum.x as int, samples as int) as i64,
        y: crate::fx::tdiv(sum.y as int, samples as int) as i64,
        z: crate::fx::tdiv(sum.z as int, samples as int) as i64,
    }
}

/// The column and row the scanline partition gives the `k`-th result of
/// one worker: columns sweep each owned row, and the owned rows are the
/// worker's residue class.
pub open spec fn scan_x(width: int, k: int) -> int {
    k % width
}

pub open spec fn scan_y(width: int, worker: int, workers: int, k: int) -> int {
    worker + (k / width) * workers
}

/// How many rows a worker owns.
pub open spec fn rows_of(height: int, worker: int, workers: int) -> int {
    if worker >= height {
        0
    } else {
        ((height - 1 - worker) / workers) + 1
    }
}

/// Render every pixel this worker owns: the rows congruent to its index
/// modulo the worker count, each column in turn. The list holds exactly
/// one entry per owned pixel, in row-major order of the owned rows, each
/// pixel's colour the averaged estimate of `pixel_spec`.
#[verifier::rlimit(100)]
pub fn render_scanlines(
    world: &Object,
    camera: &PerspectiveCamera,
    width: usize,
    height: usize,
    samples: usize,
    worker: usize,
    workers: usize,
    seed: u64,
) -> (r: Vec<(usize, usize, Vec3)>)
    requires
        object_wf(*world),
        camera_wf(*camera),
        1 <= width <= 0x8000,
        1 <= height <= 0x8000,
        1 <= samples <= 0x4000,
        1 <= workers <= 0x100,
        worker < workers,
    ensures
        r@.len() == rows_of(height as int, worker as int, workers as int) * width,
        forall|k: int|
            0 <= k < r@.len() ==> {
                let xx = scan_x(width as int, k);
                let yy = scan_y(width as int, worker as int, workers as int, k);
                &&& (#[trigger] r@[k]).0 == xx
                &&& r@[k].1 == yy
                &&& r@[k].0 < width
                &&& r@[k].1 < height
                &&& (r@[k].1 as int) % (workers as int) == worker
                &&& r@[k].2 == pixel_spec(
                    *world,
                    *camera,
                    width,
                    height,
                    samples,
                    r@[k].0,
                    r@[k].1,
                    seed,
                )
            },
        forall|a: int, b: int|
            0 <= a < b < r@.len() ==> !((#[trigger] r@[a]).0 == (#[trigger] r@[b]).0 && r@[a].1
                == r@[b].1),
{
    let mut out: Vec<(usize, usize, Vec3)> = Vec::new();
    let mut y: usize = worker;
    proof {
        lemma_residue(worker as int, workers as int);
        assert((((worker - worker) as int) / (workers as int)) * width == 0) by (nonlinear_arith)
            requires
                workers >= 1,
        ;
    }
    while y < height
        invariant
            object_wf(*world),
            camera_wf(*camera),
            1 <= width <= 0x8000,
            1 <= height <= 0x8000,
            1 <= samples <= 0x4000,
            1 <= workers <= 0x100,
            worker < workers,
            worker <= y,
            (y as int - worker) % (workers as int) == 0,
            y == worker || y - workers < height,
            out@.len() == ((y - worker) / (workers as int)) * width,
            forall|k: int|
                0 <= k < out@.len() ==> {
                    let xx = scan_x(width as int, k);
                    let yy = scan_y(width as int, worker as int, workers as int, k);
                    &&& (#[trigger] out@[k]).0 == xx
                    &&& out@[k].1 == yy
                    &&& out@[k].0 < width
                    &&& out@[k].1 < height
                    &&& (out@[k].1 as int) % (workers as int) == worker
                    &&& out@[k].2 == pixel_spec(
                        *world,
                        *camera,
                        width,
                        height,
                        samples,
                        out@[k].0,
                        out@[k].1,
                        seed,
                    )
                },
        decreases height + workers - y,
    {
        let ghost row = (y - worker) as int / (workers as int);
        proof {
            lemma_row_decomp(y as int, worker as int, workers as int);
        }
        let mut x: usize = 0;
        while x < width
            invariant
                object_wf(*world),
                camera_wf(*camera),
                1 <= width <= 0x8000,
                1 <= height <= 0x8000,
                1 <= samples <= 0x4000,
                1 <= workers <= 0x100,
                worker < workers,
                worker <= y < height,
                (y as int - worker) % (workers as int) == 0,
                row == (y - worker) as int / (workers as int),
                y == worker + row * workers,
                row >= 0,
                x <= width,
                out@.len() == row * width + x,
                forall|k: int|
                    0 <= k < out@.len() ==> {
                        let xx = scan_x(width as int, k);
                        let yy = scan_y(width as int, worker as int, workers as int, k);
                        &&& (#[trigger] out@[k]).0 == xx
                        &&& out@[k].1 == yy
                        &&& out@[k].0 < width
                        &&& out@[k].1 < height
                        &&& (out@[k].1 as int) % (workers as int) == worker
                        &&& out@[k].2 == pixel_spec(
                            *world,
                            *camera,
                            width,
                            height,
                            samples,
                            out@[k].0,
                            out@[k].1,
                            seed,
                        )
                    },
            decreases width - x,
        {
            let pixel = render_pixel(world, camera, width, height, samples, x, y, seed);
            proof {
                lemma_scan_index(width as int, row, x as int);
            }
            out.push((x, y, pixel));
            proof {
                let ghost k = out@.len() - 1;
                assert(out@[k] == (x, y, pixel));
                assert(k == row * width + x);
                assert(scan_x(width as int, k) == x as int);
                assert(scan_y(width as int, worker as int, workers as int, k) == y as int);
                lemma_own_row(y as int, worker as int, workers as int, row);
            }
            x = x + 1;
        }
        proof {
            lemma_next_row(y as int, worker as int, workers as int, width as int);
        }
        y = y + workers;
    }
    proof {
        lemma_rows_done(height as int, worker as int, workers as int, y as int);
        assert forall|a: int, b: int| 0 <= a < b < out@.len() implies !((#[trigger] out@[a]).0 == (
        #[trigger] out@[b]).0 && out@[a].1 == out@[b].1) by {
            lemma_scan_injective(width as int, worker as int, workers as int, a, b);
        }
    }
    out
}

/// A worker's index is its own residue.
proof fn lemma_residue(worker: int, workers: int)
    by (nonlinear_arith)
    requires
        0 <= worker < workers,
    ensures
        (worker - worker) % workers == 0,
{
}

/// A row the worker owns carries its residue.
proof fn lemma_own_row(y: int, worker: int, workers: int, row: int)
    by (nonlinear_arith)
    requires
        0 <= worker < workers,
        row >= 0,
        y == worker + row * workers,
    ensures
        y % workers == worker,
{
}

/// A row offset divisible by the worker count decomposes exactly.
proof fn lemma_row_decomp(y: int, worker: int, workers: int)
    by (nonlinear_arith)
    requires
        workers >= 1,
        worker <= y,
        (y - worker) % workers == 0,
    ensures
        y == worker + ((y - worker) / workers) * workers,
        (y - worker) / workers >= 0,
{
}

/// The flat index of a column within an owned row decomposes back into the
/// same coordinates.
proof fn lemma_scan_index(width: int, row: int, x: int)
    by (nonlinear_arith)
    requires
        width >= 1,
        row >= 0,
        0 <= x < width,
    ensures
        (row * width + x) % width == x,
        (row * width + x) / width == row,
{
}

/// Stepping a row by the worker count advances the row index by one.
proof fn lemma_next_row(y: int, worker: int, workers: int, width: int)
    requires
        workers >= 1,
        width >= 1,
        worker <= y,
        (y - worker) % workers == 0,
    ensures
        (y + workers - worker) % workers == 0,
        ((y - worker) / workers) * width + width == ((y + workers - worker) / workers) * width,
{
    assert((y + workers - worker) % workers == 0 && (y + workers - worker) / workers == (y - worker)
        / workers + 1) by (nonlinear_arith)
        requires
            workers >= 1,
            worker <= y,
            (y - worker) % workers == 0,
    ;
    assert(((y - worker) / workers + 1) * width == ((y - worker) / workers) * width + width)
        by (nonlinear_arith);
}

/// When the sweep leaves the frame, the rows done are exactly the rows the
/// worker owns.
proof fn lemma_rows_done(height: int, worker: int, workers: int, y: int)
    by (nonlinear_arith)
    requires
        height >= 1,
        workers >= 1,
        0 <= worker < workers,
        worker <= y,
        (y - worker) % workers == 0,
        y >= height,
        y == worker || y - workers < height,
    ensures
        (y - worker) / workers == rows_of(height, worker, workers),
{
}

/// Two distinct indices of one worker's output name distinct pixels.
proof fn lemma_scan_injective(width: int, worker: int, workers: int, a: int, b: int)
    by (nonlinear_arith)
    requires
        width >= 1,
        workers >= 1,
        0 <= a < b,
    ensures
        !(scan_x(width, a) == scan_x(width, b) && scan_y(width, worker, workers, a) == scan_y(
            width,
            worker,
            workers,
            b,
        )),
{
}

/// One pixel: the average of the jittered sample estimates of the
/// integrator, drawn from the pixel's own seeded generator.
#[verifier::rlimit(100)]
pub fn render_pixel(
    world: &Object,
    camera: &PerspectiveCamera,
    width: usize,
    height: usize,
    samples: usize,
    x: usize,
    y: usize,
    seed: u64,
) -> (r: Vec3)
    requires
        object_wf(*world),
        camera_wf(*camera),
        1 <= width <= 0x8000,
        1 <= height <= 0x8000,
        1 <= samples <= 0x4000,
        x < width,
        y < height,
    ensures
        r == pixel_spec(*world, *camera, width, height, samples, x, y, seed),
{
    let cell: u64 = (y as u64) * 0x10000 + (x as u64);
    let mut generator = Lcg::new(seed ^ cell.wrapping_mul(0x9E3779B97F4A7C15));
    proof {
        assert(generator.state == pixel_seed(seed, x, y));
    }
    let ghost seed0 = generator.state;
    proof {
        reveal_with_fuel(sample_sum, 1);
    }
    let mut sum = Vec3::new(0, 0, 0);
    let mut s: usize = 0;
    while s < samples
        invariant
            object_wf(*world),
            camera_wf(*camera),
            1 <= width <= 0x8000,
            1 <= height <= 0x8000,
            1 <= samples <= 0x4000,
            x < width,
            y < height,
            s <= samples,
            crate::vec3::b3(sum, s * 0x1000_0000),
            (sum, generator.state) == sample_sum(
                *world,
                *camera,
                width,
                height,
                x,
                y,
                s as int,
                seed0,
            ),
        decreases samples - s,
    {
        let sample = one_sample(world, camera, width, height, x, y, &mut generator);
        proof {
            lemma_sum_fits(sum, sample, s as int, samples as int);
            assert((crate::vec3::add_vec(sum, sample), generator.state) == sample_sum(
                *world,
                *camera,
                width,
                height,
                x,
                y,
                s as int + 1,
                seed0,
            )) by {
                reveal_with_fuel(sample_sum, 2);
            }
        }
        sum = sum.added(&sample);
        s = s + 1;
    }
    proof {
        reveal(pixel_spec);
    }
    average(&sum, samples)
}



/// One sample of one pixel, drawn from the generator.
#[verifier::rlimit(100)]
#[verifier::spinoff_prover]
fn one_sample(
    world: &Object,
    camera: &PerspectiveCamera,
    width: usize,
    height: usize,
    x: usize,
    y: usize,
    generator: &mut Lcg,
) -> (r: Vec3)
    requires
        object_wf(*world),
        camera_wf(*camera),
        1 <= width <= 0x8000,
        1 <= height <= 0x8000,
        x < width,
        y < height,
    ensures
        (r, final(generator).state) == sample_step(
            *world,
            *camera,
            width,
            height,
            x,
            y,
            old(generator).state,
        ),
        crate::vec3::b3(r, crate::render::color_bound(MAX_DEPTH as int)),
{
    let ju = generator.next_unit();
    let jv = generator.next_unit();
    proof {
        lemma_film_coord(x as int, ju as int, width as int);
        lemma_film_coord(y as int, jv as int, height as int);
    }
    // film coordinates of the jittered sample, in the unit square
    let fu = crate::fx::tdiv_i128_pos(
        ((x as i128) * (SCALE as i128) + (ju as i128)),
        width as i128,
    ) as i64;
    let fv = crate::fx::tdiv_i128_pos(
        ((y as i128) * (SCALE as i128) + (jv as i128)),
        height as i128,
    ) as i64;
    proof {
        assert(fu == film_coord(x, ju, width));
        assert(fv == film_coord(y, jv, height));
    }
    trace_sample(world, camera, width, height, x, y, Ghost(old(generator).state), fu, fv, generator)
}

/// Cast the camera ray for already-drawn film coordinates and run the
/// integrator.
#[verifier::rlimit(100)]
#[verifier::spinoff_prover]
fn trace_sample(
    world: &Object,
    camera: &PerspectiveCamera,
    width: usize,
    height: usize,
    x: usize,
    y: usize,
    Ghost(s0): Ghost<u64>,
    fu: Fx,
    fv: Fx,
    generator: &mut Lcg,
) -> (r: Vec3)
    requires
        object_wf(*world),
        camera_wf(*camera),
        0 <= fu <= SCALE,
        0 <= fv <= SCALE,
        fu == film_coord(x, crate::rng::unit_of(s0), width),
        fv == film_coord(
            y,
            crate::rng::unit_of(crate::rng::lcg_next(s0) as u64),
            height,
        ),
        old(generator).state == crate::rng::lcg_next(crate::rng::lcg_next(s0) as u64) as u64,
    ensures
        (r, final(generator).state) == sample_step(*world, *camera, width, height, x, y, s0),
        crate::vec3::b3(r, crate::render::color_bound(MAX_DEPTH as int)),
{
    let ray = camera.ray(fu, fv, generator);
    let ghost s3 = generator.state;
    let c = color(&ray, world, MAX_DEPTH, generator);
    proof {
        assert((c, generator.state) == crate::render::color_spec(
            ray,
            *world,
            MAX_DEPTH as int,
            s3,
        ));
        lemma_sample_step_eq(
            *world,
            *camera,
            width,
            height,
            x,
            y,
            s0,
            ray,
            s3,
            c,
            generator.state,
        );
    }
    c
}

/// The drawn coordinates, the cast ray and the integrator run compose into
/// one sample step.
proof fn lemma_sample_step_eq(
    world: Object,
    cam: PerspectiveCamera,
    width: usize,
    height: usize,
    x: usize,
    y: usize,
    s: u64,
    ray: Ray,
    s3: u64,
    c: Vec3,
    s4: u64,
)
    requires
        ({
            let ju = crate::rng::unit_of(s);
            let s1 = crate::rng::lcg_next(s) as u64;
            let jv = crate::rng::unit_of(s1);
            let s2 = crate::rng::lcg_next(s1) as u64;
            (ray, s3) == crate::camera::camera_ray_spec(
                cam,
                film_coord(x, ju, width),
                film_coord(y, jv, height),
                s2,
            )
        }),
        (c, s4) == crate::render::color_spec(ray, world, MAX_DEPTH as int, s3),
    ensures
        (c, s4) == sample_step(world, cam, width, height, x, y, s),
{
    reveal(sample_step);
}

/// The componentwise average over the sample count.
fn average(sum: &Vec3, samples: usize) -> (r: Vec3)
    requires
        1 <= samples <= 0x4000,
        crate::vec3::b3(*sum, 0x4_0000_0000_0000int),
    ensures
        r.x == crate::fx::tdiv(sum.x as int, samples as int),
        r.y == crate::fx::tdiv(sum.y as int, samples as int),
        r.z == crate::fx::tdiv(sum.z as int, samples as int),
{
    proof {
        crate::vec3::lemma_tdiv_abs_le(sum.x as int, samples as int);
        crate::vec3::lemma_tdiv_abs_le(sum.y as int, samples as int);
        crate::vec3::lemma_tdiv_abs_le(sum.z as int, samples as int);
    }
    Vec3::new(
        crate::fx::tdiv_i128_pos(sum.x as i128, samples as i128) as i64,
        crate::fx::tdiv_i128_pos(sum.y as i128, samples as i128) as i64,
        crate::fx::tdiv_i128_pos(sum.z as i128, samples as i128) as i64,
    )
}

/// A jittered film coordinate stays in the unit interval.
proof fn lemma_film_coord(x: int, j: int, width: int)
    by (nonlinear_arith)
    requires
        0 <= x < width,
        0 <= j < SCALE,
        1 <= width <= 0x8000,
    ensures
        0 <= crate::fx::tdiv(x * SCALE + j, width) <= SCALE,
        0 <= x * SCALE + j <= 0x8000_0000,
{
}

/// One more sample keeps the running sum within its cap.
proof fn lemma_sum_fits(sum: Vec3, sample: Vec3, s: int, samples: int)
    requires
        crate::vec3::b3(sum, s * 0x1000_0000),
        crate::vec3::b3(sample, crate::render::color_bound(MAX_DEPTH as int)),
        0 <= s < samples <= 0x4000,
    ensures
        crate::vec3::b3(sum, crate::fx::OP_MAX as int),
        crate::vec3::b3(sample, crate::fx::OP_MAX as int),
        crate::vec3::b3(
            Vec3 {
                x: (sum.x + sample.x) as i64,
                y: (sum.y + sample.y) as i64,
                z: (sum.z + sample.z) as i64,
            },
            (s + 1) * 0x1000_0000,
        ),
{
    assert(0 <= s * 0x1000_0000 <= 0x4000 * 0x1000_0000 && s * 0x1000_0000 + 0x1000_0000 == (s + 1)
        * 0x1000_0000) by (nonlinear_arith)
        requires
            0 <= s <= 0x4000,
    ;
}

/// Whether a result list covers every pixel of the frame exactly once.
pub open spec fn covers(results: Seq<(usize, usize, Vec3)>, width: int, height: int) -> bool {
    &&& results.len() == width * height
    &&& forall|j: int|
        0 <= j < results.len() ==> (#[trigger] results[j]).0 < width && results[j].1 < height
    &&& forall|i: int, j: int|
        0 <= i < j < results.len() ==> !((#[trigger] results[i]).0 == (#[trigger] results[j]).0
            && results[i].1 == results[j].1)
}

/// Place each tagged result into the framebuffer, in whatever order they
/// arrive. The frame comes back only when every pixel arrived exactly
/// once; a duplicate, a gap or a stray coordinate yields nothing.
pub fn assemble(width: usize, height: usize, results: &Vec<(usize, usize, Vec3)>) -> (r: Option<
    Vec<Vec3>,
>)
    requires
        1 <= width <= 0x8000,
        1 <= height <= 0x8000,
    ensures
        r is Some <==> covers(results@, width as int, height as int),
        r is Some ==> r.unwrap()@.len() == width * height,
        r is Some ==> forall|j: int|
            0 <= j < results@.len() ==> r.unwrap()@[(#[trigger] results@[j]).1 * width
                + results@[j].0] == results@[j].2,
{
    proof {
        assert(width * height <= 0x8000 * 0x8000) by (nonlinear_arith)
            requires
                1 <= width <= 0x8000,
                1 <= height <= 0x8000,
        ;
    }
    let total = width * height;
    if results.len() != total {
        return None;
    }
    proof {
        assert(results@.len() == width * height);
    }
    let mut frame: Vec<Vec3> = Vec::new();
    let mut seen: Vec<bool> = Vec::new();
    let mut i: usize = 0;
    while i < total
        invariant
            frame@.len() == i,
            seen@.len() == i,
            i <= total,
            forall|k: int| 0 <= k < i ==> !(#[trigger] seen@[k]),
        decreases total - i,
    {
        frame.push(Vec3::new(0, 0, 0));
        seen.push(false);
        i = i + 1;
    }
    let mut j: usize = 0;
    while j < results.len()
        invariant
            1 <= width <= 0x8000,
            1 <= height <= 0x8000,
            frame@.len() == width * height,
            seen@.len() == width * height,
            j <= results@.len(),
            results@.len() == width * height,
            forall|k: int|
                0 <= k < j ==> (#[trigger] results@[k]).0 < width && results@[k].1 < height,
            forall|k: int|
                0 <= k < j ==> seen@[(#[trigger] results@[k]).1 * width + results@[k].0],
            forall|k: int|
                0 <= k < j ==> frame@[(#[trigger] results@[k]).1 * width + results@[k].0]
                    == results@[k].2,
            forall|a: int, b: int|
                0 <= a < b < j ==> !((#[trigger] results@[a]).0 == (#[trigger] results@[b]).0
                    && results@[a].1 == results@[b].1),
            forall|p: int|
                0 <= p < seen@.len() && seen@[p] ==> exists|k: int|
                    0 <= k < j && (#[trigger] results@[k]).1 * width + results@[k].0 == p,
        decreases results@.len() - j,
    {
        let (x, y, c) = results[j];
        if x >= width || y >= height {
            proof {
                assert(!covers(results@, width as int, height as int)) by {
                    assert(results@[j as int] == (x, y, c));
                }
            }
            return None;
        }
        proof {
            lemma_cell_index(x as int, y as int, width as int, height as int);
        }
        let cell = y * width + x;
        if seen[cell] {
            proof {
                let k = choose|k: int|
                    0 <= k < j && (#[trigger] results@[k]).1 * width + results@[k].0 == cell;
                lemma_cell_unique(
                    results@[k].0 as int,
                    results@[k].1 as int,
                    x as int,
                    y as int,
                    width as int,
                );
                assert(!covers(results@, width as int, height as int)) by {
                    assert(results@[j as int] == (x, y, c));
                    assert(results@[k].0 == results@[j as int].0 && results@[k].1
                        == results@[j as int].1);
                }
            }
            return None;
        }
        let ghost seen_before = seen@;
        let ghost frame_before = frame@;
        frame.set(cell, c);
        seen.set(cell, true);
        proof {
            assert(results@[j as int] == (x, y, c));
            assert(cell == results@[j as int].1 * width + results@[j as int].0);
            assert(seen@[cell as int]);
            assert(frame@[cell as int] == c);
            assert forall|k: int| 0 <= k < j implies {
                let idx = (#[trigger] results@[k]).1 * width + results@[k].0;
                idx != cell && 0 <= idx < seen@.len() && seen@[idx] && frame@[idx]
                    == results@[k].2
            } by {
                let idx = results@[k].1 * width + results@[k].0;
                lemma_cell_index(
                    results@[k].0 as int,
                    results@[k].1 as int,
                    width as int,
                    height as int,
                );
                assert(seen_before[idx]);
                assert(frame_before[idx] == results@[k].2);
                assert(idx != cell);
            }
            assert forall|a: int, b: int| 0 <= a < b < j + 1 implies !((#[trigger] results@[a]).0
                == (#[trigger] results@[b]).0 && results@[a].1 == results@[b].1) by {
                if b == j && results@[a].0 == results@[b].0 && results@[a].1 == results@[b].1 {
                    assert(results@[a].1 * width + results@[a].0 == cell);
                }
            }
        }
        j = j + 1;
    }
    Some(frame)
}

/// Distinct coordinates give distinct cells.
proof fn lemma_cell_unique(x0: int, y0: int, x1: int, y1: int, width: int)
    by (nonlinear_arith)
    requires
        width >= 1,
        0 <= x0 < width,
        0 <= x1 < width,
        0 <= y0,
        0 <= y1,
        y0 * width + x0 == y1 * width + x1,
    ensures
        x0 == x1 && y0 == y1,
{
}

proof fn lemma_cell_index(x: int, y: int, width: int, height: int)
    by (nonlinear_arith)
    requires
        0 <= x < width,
        0 <= y < height,
        width <= 0x8000,
        height <= 0x8000,
    ensures
        0 <= y * width + x < width * height,
{
}

/// The whole frame rendered in one thread of control, row-major: every
/// pixel's colour is its own averaged estimate, a function of the scene,
/// the camera, the sizes and the seed alone — so two identically seeded
/// renders of one scene are equal cell by cell.
pub fn render_image(
    world: &Object,
    camera: &PerspectiveCamera,
    width: usize,
    height: usize,
    samples: usize,
    seed: u64,
) -> (r: Vec<Vec3>)
    requires
        object_wf(*world),
        camera_wf(*camera),
        1 <= width <= 0x8000,
        1 <= height <= 0x8000,
        1 <= samples <= 0x4000,
    ensures
        r@.len() == width * height,
        forall|j: int|
            0 <= j < r@.len() ==> #[trigger] r@[j] == pixel_spec(
                *world,
                *camera,
                width,
                height,
                samples,
                (j % (width as int)) as usize,
                (j / (width as int)) as usize,
                seed,
            ),
{
    proof {
        assert(width * height <= 0x8000 * 0x8000) by (nonlinear_arith)
            requires
                1 <= width <= 0x8000,
                1 <= height <= 0x8000,
        ;
    }
    let total = width * height;
    let mut frame: Vec<Vec3> = Vec::new();
    let mut j: usize = 0;
    while j < total
        invariant
            object_wf(*world),
            camera_wf(*camera),
            1 <= width <= 0x8000,
            1 <= height <= 0x8000,
            1 <= samples <= 0x4000,
            total == width * height,
            j <= total,
            frame@.len() == j,
            forall|k: int|
                0 <= k < frame@.len() ==> #[trigger] frame@[k] == pixel_spec(
                    *world,
                    *camera,
                    width,
                    height,
                    samples,
                    (k % (width as int)) as usize,
                    (k / (width as int)) as usize,
                    seed,
                ),
        decreases total - j,
    {
        let x = j % width;
        let y = j / width;
        proof {
            lemma_cell_coords(j as int, width as int, height as int);
        }
        let pixel = render_pixel(world, camera, width, height, samples, x, y, seed);
        frame.push(pixel);
        j = j + 1;
    }
    frame
}

/// A cell index inside the frame decomposes into in-range coordinates.
proof fn lemma_cell_coords(j: int, width: int, height: int)
    by (nonlinear_arith)
    requires
        width >= 1,
        height >= 1,
        0 <= j < width * height,
    ensures
        0 <= j % width < width,
        0 <= j / width < height,
{
}

/// One colour channel mapped to a byte: square-root gamma, scaled to the
/// byte range and clamped.
pub fn to_byte(c: Fx) -> (r: u8)
    ensures
        r as int == byte_spec(c as int),
{
    let clamped = if c < 0 {
        0
    } else {
        c
    };
    let root = crate::fx::fx_sqrt(clamped);
    proof {
        crate::fx::lemma_isqrt_unique(clamped * SCALE, root as int);
        assert(root < 0x100_0000_0000) by (nonlinear_arith)
            requires
                (root as int) * (root as int) <= clamped * SCALE,
                0 <= clamped <= i64::MAX,
                root >= 0,
        ;
    }
    let scaled = (root * 255) / SCALE;
    if scaled > 255 {
        255
    } else {
        scaled as u8
    }
}

/// The byte a channel maps to.
pub open spec fn byte_spec(c: int) -> int {
    let clamped = if c < 0 {
        0
    } else {
        c
    };
    let root = crate::fx::sqrt_floor(clamped * SCALE);
    let scaled = root * 255 / (SCALE as int);
    if scaled > 255 {
        255
    } else {
        scaled
    }
}

} // verus!

//! Textures and the scattering rules of the surface materials.

use vstd::prelude::*;

use crate::fx::fx_div;
use crate::fx::fx_div_spec;
use crate::fx::sabs;
use crate::fx::tdiv;
use crate::fx::Fx;
use crate::fx::COORD_MAX;
use crate::fx::ONE;
use crate::fx::SCALE;
use crate::ray::rec_wf;
use crate::ray::ray_bounded;
use crate::ray::HitRecord;
use crate::ray::Ray;
use crate::rng::Lcg;
use crate::util::randomInUnitSphere;
use crate::vec3::b3;
use crate::vec3::dot3;
use crate::vec3::dot3u;
use crate::vec3::unit3;
use crate::vec3::Vec3;
use crate::vec3::UNIT_MAX;

verus! {

/// Largest magnitude of an emission colour channel: 64 whole units.
pub const EMIT_MAX: i64 = 0x40_0000;

/// Smallest refractive index accepted, one quarter.
pub const REFRACT_MIN: i64 = 0x4000;

/// A rule mapping surface coordinates and a point to a colour.
#[derive(Debug)]
pub enum Texture {
    Solid(SolidColor),
    Checker(CheckerTexture),
    Image(ImageTexture),
}

/// A constant colour.
#[derive(Debug)]
pub struct SolidColor {
    pub color: Vec3,
}

/// A square pattern in surface coordinates alternating two textures.
#[derive(Debug)]
pub struct CheckerTexture {
    pub black: Box<Texture>,
    pub white: Box<Texture>,
}

/// A raster of colours indexed by surface coordinates; decoding the backing
/// file happens outside the library, which only receives the pixels.
#[derive(Debug)]
pub struct ImageTexture {
    pub width: usize,
    pub height: usize,
    pub pixels: Vec<Vec3>,
}

/// Every colour a texture can produce has channels in `[-cap, cap]`, and a
/// raster's size agrees with its pixel count.
pub open spec fn texture_wf(t: Texture, cap: int) -> bool
    decreases t,
{
    match t {
        Texture::Solid(s) => b3(s.color, cap),
        Texture::Checker(c) => texture_wf(*c.black, cap) && texture_wf(*c.white, cap),
        Texture::Image(im) => {
            &&& 1 <= im.width <= 0x8000
            &&& 1 <= im.height <= 0x8000
            &&& im.pixels.len() == im.width * im.height
            &&& forall|i: int| 0 <= i < im.pixels.len() ==> b3(#[trigger] im.pixels@[i], cap)
        },
    }
}

/// The checker pattern selects its first texture where the product of the
/// two square waves is positive: both surface coordinates fall in the first
/// half of their cell, or both in the second.
pub open spec fn wave_first_half(a: int) -> bool {
    0 < (10 * a) % (SCALE as int) < 32768
}

pub open spec fn wave_second_half(a: int) -> bool {
    32768 < (10 * a) % (SCALE as int)
}

pub open spec fn checker_first(u: int, v: int) -> bool {
    (wave_first_half(u) && wave_first_half(v)) || (wave_second_half(u) && wave_second_half(v))
}

/// The raster cell struck by surface coordinates: the column grows with
/// `u`, the row with `1 - v`, both clamped to the raster.
pub open spec fn image_col(im: ImageTexture, u: int) -> int {
    let c = tdiv(u * im.width, SCALE as int);
    if c < 0 {
        0
    } else if c >= im.width {
        im.width - 1
    } else {
        c
    }
}

pub open spec fn image_row(im: ImageTexture, v: int) -> int {
    let r = tdiv((SCALE - v) * im.height, SCALE as int);
    if r < 0 {
        0
    } else if r >= im.height {
        im.height - 1
    } else {
        r
    }
}

/// The colour a texture gives at surface coordinates and a point.
pub open spec fn texture_value_spec(t: Texture, uv: (Fx, Fx), point: Vec3) -> Vec3
    decreases t,
{
    match t {
        Texture::Solid(s) => s.color,
        Texture::Checker(c) => if checker_first(uv.0 as int, uv.1 as int) {
            texture_value_spec(*c.black, uv, point)
        } else {
            texture_value_spec(*c.white, uv, point)
        },
        Texture::Image(im) => im.pixels@[image_row(im, uv.1 as int) * im.width + image_col(
            im,
            uv.0 as int,
        )],
    }
}

/// A texture never produces a colour outside its cap.
pub proof fn lemma_texture_value_bound(t: Texture, cap: int, uv: (Fx, Fx), point: Vec3)
    requires
        texture_wf(t, cap),
    ensures
        b3(texture_value_spec(t, uv, point), cap),
    decreases t,
{
    match t {
        Texture::Solid(_) => {},
        Texture::Checker(c) => {
            lemma_texture_value_bound(*c.black, cap, uv, point);
            lemma_texture_value_bound(*c.white, cap, uv, point);
        },
        Texture::Image(im) => {
            lemma_image_index_in_range(im, uv.0 as int, uv.1 as int);
        },
    }
}

proof fn lemma_image_index_in_range(im: ImageTexture, u: int, v: int)
    ensures
        im.width >= 1 && im.height >= 1 ==> 0 <= image_row(im, v) * im.width + image_col(im, u)
            < im.width * im.height,
{
    if im.width >= 1 && im.height >= 1 {
        let c = image_col(im, u);
        let r = image_row(im, v);
        assert(0 <= c < im.width);
        assert(0 <= r < im.height);
        assert(0 <= r * im.width + c < im.width * im.height) by (nonlinear_arith)
            requires
                0 <= c < im.width,
                0 <= r < im.height,
        ;
    }
}

/// The Euclidean remainder of ten times a scalar, against the unit cell.
fn wave_phase(a: Fx) -> (r: i64)
    requires
        sabs(a as int) <= COORD_MAX as int,
    ensures
        r == (10 * a) % (SCALE as int),
{
    let p: i128 = 10 * (a as i128);
    if p >= 0 {
        (p % 65536) as i64
    } else {
        let q: i128 = (-p) % 65536;
        proof {
            lemma_neg_mod(p as int);
        }
        if q == 0 {
            0
        } else {
            (65536 - q) as i64
        }
    }
}

proof fn lemma_neg_mod(p: int)
    by (nonlinear_arith)
    requires
        p < 0,
    ensures
        ((-p) % 65536 == 0) ==> p % 65536 == 0,
        ((-p) % 65536 != 0) ==> p % 65536 == 65536 - ((-p) % 65536),
{
}

impl Texture {
    /// The colour this texture gives at the surface coordinates and point.
    pub fn value(&self, uv: &(Fx, Fx), point: &Vec3) -> (r: Vec3)
        requires
            texture_wf(*self, COORD_MAX as int),
            sabs(uv.0 as int) <= COORD_MAX as int,
            sabs(uv.1 as int) <= COORD_MAX as int,
        ensures
            r == texture_value_spec(*self, *uv, *point),
        decreases *self,
    {
        match self {
            Texture::Solid(s) => s.color,
            Texture::Checker(c) => {
                let pu = wave_phase(uv.0);
                let pv = wave_phase(uv.1);
                let first = (pu > 0 && pu < 32768 && pv > 0 && pv < 32768) || (pu > 32768 && pv
                    > 32768);
                if first {
                    c.black.value(uv, point)
                } else {
                    c.white.value(uv, point)
                }
            },
            Texture::Image(im) => {
                proof {
                    lemma_image_index_in_range(*im, uv.0 as int, uv.1 as int);
                }
                let col = image_col_exec(im, uv.0);
                let row = image_row_exec(im, uv.1);
                im.pixels[row * im.width + col]
            },
        }
    }
}

fn image_col_exec(im: &ImageTexture, u: Fx) -> (r: usize)
    requires
        1 <= im.width <= 0x8000,
        sabs(u as int) <= COORD_MAX as int,
    ensures
        r == image_col(*im, u as int),
{
    proof {
        assert(sabs((u as i128) * (im.width as i128)) <= 0x4000_0000 * 0x8000) by (nonlinear_arith)
            requires
                sabs(u as int) <= 0x4000_0000,
                0 <= im.width <= 0x8000,
    ;
    }
    let p: i128 = (u as i128) * (im.width as i128);
    let c: i128 = if p >= 0 {
        p / 65536
    } else {
        -((-p) / 65536)
    };
    proof {
        crate::fx::lemma_div_le(if p >= 0 {
            p as int
        } else {
            -(p as int)
        }, 65536);
    }
    if c < 0 {
        0
    } else if c >= im.width as i128 {
        im.width - 1
    } else {
        c as usize
    }
}

fn image_row_exec(im: &ImageTexture, v: Fx) -> (r: usize)
    requires
        1 <= im.height <= 0x8000,
        sabs(v as int) <= COORD_MAX as int,
    ensures
        r == image_row(*im, v as int),
{
    proof {
        assert(sabs(((SCALE as i128) - (v as i128)) * (im.height as i128)) <= 0x8000_0000 * 0x8000)
            by (nonlinear_arith)
            requires
                sabs(v as int) <= 0x4000_0000,
                0 <= im.height <= 0x8000,
                SCALE == 65536,
    ;
    }
    let p: i128 = ((SCALE as i128) - (v as i128)) * (im.height as i128);
    let c: i128 = if p >= 0 {
        p / 65536
    } else {
        -((-p) / 65536)
    };
    proof {
        crate::fx::lemma_div_le(if p >= 0 {
            p as int
        } else {
            -(p as int)
        }, 65536);
    }
    if c < 0 {
        0
    } else if c >= im.height as i128 {
        im.height - 1
    } else {
        c as usize
    }
}

impl SolidColor {
    pub fn new(color: Vec3) -> (r: SolidColor)
        ensures
            r.color == color,
    {
        SolidColor { color }
    }
}

impl CheckerTexture {
    pub fn new(black: Texture, white: Texture) -> (r: CheckerTexture)
        ensures
            r.black == black,
            r.white == white,
    {
        CheckerTexture { black: Box::new(black), white: Box::new(white) }
    }
}

impl ImageTexture {
    /// Wrap an already-decoded raster: a row-major pixel array whose length
    /// is the given width times height.
    pub fn new(width: usize, height: usize, pixels: Vec<Vec3>) -> (r: ImageTexture)
        ensures
            r.width == width,
            r.height == height,
            r.pixels == pixels,
    {
        ImageTexture { width, height, pixels }
    }
}


/// The scattering rules: diffuse, specular, refractive, emissive and
/// volumetric.
#[derive(Debug)]
pub enum Material {
    Lambertian(Lambertian),
    Metal(Metal),
    Dielectric(Dielectric),
    DiffuseLight(DiffuseLight),
    Isotropic(Isotropic),
}

/// Diffuse scattering tinted by a texture.
#[derive(Debug)]
pub struct Lambertian {
    pub albedo: Texture,
}

/// Specular reflection with a fuzz radius, tinted by a texture.
#[derive(Debug)]
pub struct Metal {
    pub albedo: Texture,
    pub fuzziness: Fx,
}

/// Refraction by Snell's law, reflecting totally past the critical angle.
#[derive(Debug)]
pub struct Dielectric {
    pub refractive: Fx,
}

/// A surface that only emits.
#[derive(Debug)]
pub struct DiffuseLight {
    pub emission: Texture,
}

/// Uniform scattering in all directions, for participating media.
#[derive(Debug)]
pub struct Isotropic {
    pub albedo: Texture,
}

/// Albedo channels stay within one, emission within `EMIT_MAX`, fuzz within
/// one, and the refractive index within a quarter and four.
pub open spec fn material_wf(m: Material) -> bool {
    match m {
        Material::Lambertian(l) => texture_wf(l.albedo, ONE as int),
        Material::Metal(mt) => texture_wf(mt.albedo, ONE as int) && 0 <= mt.fuzziness <= ONE,
        Material::Dielectric(d) => REFRACT_MIN <= d.refractive <= UNIT_MAX,
        Material::DiffuseLight(l) => texture_wf(l.emission, EMIT_MAX as int),
        Material::Isotropic(i) => texture_wf(i.albedo, ONE as int),
    }
}

/// The direction a dielectric sends a ray on: the incoming direction is
/// normalized, the normal is flipped when the ray leaves the medium, and
/// the ray refracts where the discriminant allows and reflects otherwise.
pub open spec fn dielectric_dir_spec(dir: Vec3, normal: Vec3, refractive: Fx) -> (int, int, int) {
    let u = unit3(dir);
    let uvec = Vec3 { x: u.0 as i64, y: u.1 as i64, z: u.2 as i64 };
    let entering = crate::vec3::dot3u(u, normal) < 0;
    let n2 = if entering {
        normal
    } else {
        Vec3 { x: (-normal.x) as i64, y: (-normal.y) as i64, z: (-normal.z) as i64 }
    };
    let ratio = if entering {
        fx_div_spec(ONE as int, refractive as int)
    } else {
        refractive as int
    };
    let dt = crate::vec3::refract_dt(uvec, n2);
    let d2 = crate::vec3::refract_disc2(dt, ratio);
    if d2 > 0 {
        let sq = crate::fx::sqrt_floor(d2);
        (
            crate::vec3::refract_comp(uvec.x as int, n2.x as int, dt, sq, ratio),
            crate::vec3::refract_comp(uvec.y as int, n2.y as int, dt, sq, ratio),
            crate::vec3::refract_comp(uvec.z as int, n2.z as int, dt, sq, ratio),
        )
    } else {
        let rd = dot3(uvec, n2);
        (
            uvec.x - crate::fx::fx_mul_spec(n2.x as int, 2 * rd),
            uvec.y - crate::fx::fx_mul_spec(n2.y as int, 2 * rd),
            uvec.z - crate::fx::fx_mul_spec(n2.z as int, 2 * rd),
        )
    }
}


/// What a diffuse surface does: scatter towards the normal jittered by a
/// ball sample, tinted by the texture; one sample is drawn.
pub open spec fn lambertian_scatter_spec(l: Lambertian, hit: HitRecord, s: u64) -> ((Ray, Vec3), u64) {
    let (offset, s1) = crate::util::unit_sphere_spec(s);
    let direction = Vec3 {
        x: (hit.normal.x + offset.x) as i64,
        y: (hit.normal.y + offset.y) as i64,
        z: (hit.normal.z + offset.z) as i64,
    };
    (
        (
            Ray { origin: hit.intersection, direction },
            texture_value_spec(l.albedo, hit.uv, hit.intersection),
        ),
        s1,
    )
}

/// The direction a metal sends a ray on: the normalized incoming direction
/// mirrored about the normal, plus a fuzz-scaled ball sample; a pure mirror
/// draws nothing.
pub open spec fn metal_dir_spec(mt: Metal, ray_dir: Vec3, normal: Vec3, s: u64) -> (Vec3, u64) {
    let u = unit3(ray_dir);
    let uvec = Vec3 { x: u.0 as i64, y: u.1 as i64, z: u.2 as i64 };
    let d2 = 2 * dot3(uvec, normal);
    let refl = Vec3 {
        x: (uvec.x - crate::fx::fx_mul_spec(normal.x as int, d2)) as i64,
        y: (uvec.y - crate::fx::fx_mul_spec(normal.y as int, d2)) as i64,
        z: (uvec.z - crate::fx::fx_mul_spec(normal.z as int, d2)) as i64,
    };
    if mt.fuzziness == 0 {
        (refl, s)
    } else {
        let (offset, s1) = crate::util::unit_sphere_spec(s);
        let fuzzed = Vec3 {
            x: (refl.x + crate::fx::fx_mul_spec(offset.x as int, mt.fuzziness as int)) as i64,
            y: (refl.y + crate::fx::fx_mul_spec(offset.y as int, mt.fuzziness as int)) as i64,
            z: (refl.z + crate::fx::fx_mul_spec(offset.z as int, mt.fuzziness as int)) as i64,
        };
        (fuzzed, s1)
    }
}

/// What a metal does: the mirrored, fuzzed ray when it leaves the surface,
/// absorption exactly when it would re-enter.
pub open spec fn metal_scatter_spec(mt: Metal, ray: Ray, hit: HitRecord, s: u64) -> (
    Option<(Ray, Vec3)>,
    u64,
) {
    let (direction, s1) = metal_dir_spec(mt, ray.direction, hit.normal, s);
    if dot3(direction, hit.normal) > 0 {
        (
            Some(
                (
                    Ray { origin: hit.intersection, direction },
                    texture_value_spec(mt.albedo, hit.uv, hit.intersection),
                ),
            ),
            s1,
        )
    } else {
        (None, s1)
    }
}

/// What a dielectric does: refract or totally reflect, with white
/// attenuation; nothing is drawn.
pub open spec fn dielectric_scatter_spec(d: Dielectric, ray: Ray, hit: HitRecord) -> (Ray, Vec3) {
    let dir = dielectric_dir_spec(ray.direction, hit.normal, d.refractive);
    (
        Ray {
            origin: hit.intersection,
            direction: Vec3 { x: dir.0 as i64, y: dir.1 as i64, z: dir.2 as i64 },
        },
        Vec3 { x: ONE, y: ONE, z: ONE },
    )
}

/// What fog matter does: scatter a fresh ball sample from the hit point,
/// tinted by the texture; one sample is drawn.
pub open spec fn isotropic_scatter_spec(i: Isotropic, hit: HitRecord, s: u64) -> ((Ray, Vec3), u64) {
    let (direction, s1) = crate::util::unit_sphere_spec(s);
    (
        (
            Ray { origin: hit.intersection, direction },
            texture_value_spec(i.albedo, hit.uv, hit.intersection),
        ),
        s1,
    )
}

/// What any material does, by its rule.
pub open spec fn material_scatter_spec(m: Material, ray: Ray, hit: HitRecord, s: u64) -> (
    Option<(Ray, Vec3)>,
    u64,
) {
    match m {
        Material::Lambertian(l) => {
            let (out, s1) = lambertian_scatter_spec(l, hit, s);
            (Some(out), s1)
        },
        Material::Metal(mt) => metal_scatter_spec(mt, ray, hit, s),
        Material::Dielectric(d) => (Some(dielectric_scatter_spec(d, ray, hit)), s),
        Material::DiffuseLight(_) => (None, s),
        Material::Isotropic(i) => {
            let (out, s1) = isotropic_scatter_spec(i, hit, s);
            (Some(out), s1)
        },
    }
}

/// What any material emits: the emission texture of a light, black
/// elsewhere.
pub open spec fn emitted_spec(m: Material, uv: (Fx, Fx), point: Vec3) -> Vec3 {
    match m {
        Material::DiffuseLight(l) => texture_value_spec(l.emission, uv, point),
        _ => Vec3 { x: 0, y: 0, z: 0 },
    }
}

impl Lambertian {
    pub fn new(albedo: Texture) -> (r: Lambertian)
        ensures
            r.albedo == albedo,
    {
        Lambertian { albedo }
    }

    pub fn albedo(&self) -> (r: &Texture)
        ensures
            *r == self.albedo,
    {
        &self.albedo
    }

    /// Scatter towards the normal jittered by a point of the unit ball; the
    /// attenuation is the texture colour at the hit.
    pub fn scatter(&self, _ray_in: &Ray, hit: &HitRecord, generator: &mut Lcg) -> (r: Option<
        (Ray, Vec3),
    >)
        requires
            texture_wf(self.albedo, ONE as int),
            rec_wf(*hit),
        ensures
            ({
                let (out, s1) = lambertian_scatter_spec(*self, *hit, old(generator).state);
                r == Some(out) && final(generator).state == s1
            }),
            r.is_some(),
            r.unwrap().0.origin == hit.intersection,
            sabs(r.unwrap().0.direction.x - hit.normal.x) <= SCALE,
            sabs(r.unwrap().0.direction.y - hit.normal.y) <= SCALE,
            sabs(r.unwrap().0.direction.z - hit.normal.z) <= SCALE,
            r.unwrap().1 == texture_value_spec(self.albedo, hit.uv, hit.intersection),
            b3(r.unwrap().1, ONE as int),
            ray_bounded(r.unwrap().0),
    {
        let offset = randomInUnitSphere(generator);
        let direction = hit.normal().added(&offset);
        let scattered = Ray::new(*hit.intersection(), direction);
        proof {
            lemma_texture_value_bound(self.albedo, ONE as int, hit.uv, hit.intersection);
            lemma_texture_wf_widen(self.albedo, ONE as int);
        }
        let attenuation = self.albedo.value(hit.uv(), hit.intersection());
        Some((scattered, attenuation))
    }
}

impl Metal {
    pub fn new(albedo: Texture, fuzziness: Fx) -> (r: Metal)
        ensures
            r.albedo == albedo,
            r.fuzziness == fuzziness,
    {
        Metal { albedo, fuzziness }
    }

    pub fn albedo(&self) -> (r: &Texture)
        ensures
            *r == self.albedo,
    {
        &self.albedo
    }

    pub fn fuzziness(&self) -> (r: Fx)
        ensures
            r == self.fuzziness,
    {
        self.fuzziness
    }

    /// Mirror the incoming direction about the normal, fuzzed by a scaled
    /// random offset; the ray is absorbed when the outgoing direction would
    /// re-enter the surface.
    pub fn scatter(&self, ray_in: &Ray, hit: &HitRecord, generator: &mut Lcg) -> (r: Option<
        (Ray, Vec3),
    >)
        requires
            texture_wf(self.albedo, ONE as int),
            0 <= self.fuzziness <= ONE,
            rec_wf(*hit),
            ray_bounded(*ray_in),
        ensures
            (r, final(generator).state) == metal_scatter_spec(
                *self,
                *ray_in,
                *hit,
                old(generator).state,
            ),
            r.is_some() ==> {
                &&& r.unwrap().0.origin == hit.intersection
                &&& dot3(r.unwrap().0.direction, hit.normal) > 0
                &&& r.unwrap().1 == texture_value_spec(self.albedo, hit.uv, hit.intersection)
                &&& b3(r.unwrap().1, ONE as int)
                &&& ray_bounded(r.unwrap().0)
            },
    {
        let unit_in = ray_in.direction().normalized();
        let reflected = unit_in.reflected(hit.normal());
        let direction = if self.fuzziness == 0 {
            reflected
        } else {
            let offset = randomInUnitSphere(generator).scaled(self.fuzziness);
            reflected.added(&offset)
        };
        if direction.dot(hit.normal()) > 0 {
            proof {
                lemma_texture_value_bound(self.albedo, ONE as int, hit.uv, hit.intersection);
                lemma_texture_wf_widen(self.albedo, ONE as int);
            }
            let attenuation = self.albedo.value(hit.uv(), hit.intersection());
            Some((Ray::new(*hit.intersection(), direction), attenuation))
        } else {
            None
        }
    }
}

impl Dielectric {
    pub fn new(refractive: Fx) -> (r: Dielectric)
        ensures
            r.refractive == refractive,
    {
        Dielectric { refractive }
    }

    pub fn refractive(&self) -> (r: Fx)
        ensures
            r == self.refractive,
    {
        self.refractive
    }

    /// Refract by Snell's law when the discriminant allows, otherwise
    /// reflect totally; the attenuation is always white.
    pub fn scatter(&self, ray_in: &Ray, hit: &HitRecord, generator: &mut Lcg) -> (r: Option<
        (Ray, Vec3),
    >)
        requires
            REFRACT_MIN <= self.refractive <= UNIT_MAX,
            rec_wf(*hit),
            ray_bounded(*ray_in),
        ensures
            r == Some(dielectric_scatter_spec(*self, *ray_in, *hit)),
            final(generator).state == old(generator).state,
            r.is_some(),
            r.unwrap().0.origin == hit.intersection,
            r.unwrap().1 == (Vec3 { x: ONE, y: ONE, z: ONE }),
            ({
                let d = r.unwrap().0.direction;
                (d.x as int, d.y as int, d.z as int) == dielectric_dir_spec(
                    ray_in.direction,
                    hit.normal,
                    self.refractive,
                )
            }),
            ray_bounded(r.unwrap().0),
    {
        let attenuation = Vec3::new(ONE, ONE, ONE);
        let uv = ray_in.direction().normalized();
        let dt0 = uv.dot(hit.normal());
        let entering = dt0 < 0;
        let normal = if entering {
            *hit.normal()
        } else {
            hit.normal().negated()
        };
        let ratio = if entering {
            proof {
                lemma_one_over_index_in_range(self.refractive as int);
            }
            fx_div(ONE, self.refractive)
        } else {
            self.refractive
        };
        let direction = match uv.refracted(&normal, ratio) {
            Some(d) => d,
            None => uv.reflected(&normal),
        };
        Some((Ray::new(*hit.intersection(), direction), attenuation))
    }
}

/// The reciprocal of a refractive index between a quarter and four stays
/// between a quarter and four.
proof fn lemma_one_over_index_in_range(refractive: int)
    requires
        REFRACT_MIN <= refractive <= UNIT_MAX,
    ensures
        0 < fx_div_spec(ONE as int, refractive) <= UNIT_MAX,
        sabs(ONE as int) * SCALE <= crate::fx::OP_MAX * sabs(refractive),
        crate::fx::fits_op(ONE as int),
        crate::fx::fits_op(refractive),
{
    assert(0 < (65536 * 65536int) / refractive <= 0x4_0000 && 65536 * 65536 <= crate::fx::OP_MAX
        * refractive) by (nonlinear_arith)
        requires
            0x4000 <= refractive <= 0x4_0000,
    ;
}

impl DiffuseLight {
    pub fn new(emission: Texture) -> (r: DiffuseLight)
        ensures
            r.emission == emission,
    {
        DiffuseLight { emission }
    }

    /// A light never scatters; it only emits.
    pub fn scatter(&self, _ray_in: &Ray, _hit: &HitRecord, generator: &mut Lcg) -> (r: Option<
        (Ray, Vec3),
    >)
        ensures
            r.is_none(),
            final(generator).state == old(generator).state,
    {
        None
    }

    pub fn emitted(&self, uv: &(Fx, Fx), point: &Vec3) -> (r: Vec3)
        requires
            texture_wf(self.emission, EMIT_MAX as int),
            sabs(uv.0 as int) <= COORD_MAX as int,
            sabs(uv.1 as int) <= COORD_MAX as int,
        ensures
            r == texture_value_spec(self.emission, *uv, *point),
            b3(r, EMIT_MAX as int),
    {
        proof {
            lemma_texture_value_bound(self.emission, EMIT_MAX as int, *uv, *point);
            lemma_texture_wf_widen(self.emission, EMIT_MAX as int);
        }
        self.emission.value(uv, point)
    }
}

/// A texture within a small cap is within the world cap.
proof fn lemma_texture_wf_widen(t: Texture, cap: int)
    requires
        texture_wf(t, cap),
        0 <= cap <= COORD_MAX as int,
    ensures
        texture_wf(t, COORD_MAX as int),
    decreases t,
{
    match t {
        Texture::Solid(_) => {},
        Texture::Checker(c) => {
            lemma_texture_wf_widen(*c.black, cap);
            lemma_texture_wf_widen(*c.white, cap);
        },
        Texture::Image(im) => {
            assert forall|i: int| 0 <= i < im.pixels.len() implies b3(
                #[trigger] im.pixels@[i],
                COORD_MAX as int,
            ) by {
                assert(b3(im.pixels@[i], cap));
            }
        },
    }
}

impl Isotropic {
    pub fn new(albedo: Texture) -> (r: Isotropic)
        ensures
            r.albedo == albedo,
    {
        Isotropic { albedo }
    }

    /// Scatter uniformly from the hit point; the attenuation is the texture
    /// colour there.
    pub fn scatter(&self, _ray_in: &Ray, hit: &HitRecord, generator: &mut Lcg) -> (r: Option<
        (Ray, Vec3),
    >)
        requires
            texture_wf(self.albedo, ONE as int),
            rec_wf(*hit),
        ensures
            ({
                let (out, s1) = isotropic_scatter_spec(*self, *hit, old(generator).state);
                r == Some(out) && final(generator).state == s1
            }),
            r.is_some(),
            r.unwrap().0.origin == hit.intersection,
            b3(r.unwrap().0.direction, SCALE as int),
            r.unwrap().1 == texture_value_spec(self.albedo, hit.uv, hit.intersection),
            b3(r.unwrap().1, ONE as int),
            ray_bounded(r.unwrap().0),
    {
        let direction = randomInUnitSphere(generator);
        let scattered = Ray::new(*hit.intersection(), direction);
        proof {
            lemma_texture_value_bound(self.albedo, ONE as int, hit.uv, hit.intersection);
            lemma_texture_wf_widen(self.albedo, ONE as int);
        }
        let attenuation = self.albedo.value(hit.uv(), hit.intersection());
        Some((scattered, attenuation))
    }
}

impl Material {
    /// Scatter an incoming ray at a hit under this material's rule. A
    /// scattered ray starts at the hit point with a bounded direction, and
    /// its attenuation never exceeds one per channel; only a light or an
    /// absorbing metal gives nothing back.
    pub fn scatter(&self, ray_in: &Ray, hit: &HitRecord, generator: &mut Lcg) -> (r: Option<
        (Ray, Vec3),
    >)
        requires
            material_wf(*self),
            rec_wf(*hit),
            ray_bounded(*ray_in),
        ensures
            (r, final(generator).state) == material_scatter_spec(
                *self,
                *ray_in,
                *hit,
                old(generator).state,
            ),
            r.is_some() ==> {
                &&& r.unwrap().0.origin == hit.intersection
                &&& ray_bounded(r.unwrap().0)
                &&& b3(r.unwrap().1, ONE as int)
            },
            r.is_none() ==> (self matches Material::DiffuseLight(_) || self
                matches Material::Metal(_)),
    {
        match self {
            Material::Lambertian(l) => l.scatter(ray_in, hit, generator),
            Material::Metal(m) => m.scatter(ray_in, hit, generator),
            Material::Dielectric(d) => d.scatter(ray_in, hit, generator),
            Material::DiffuseLight(l) => l.scatter(ray_in, hit, generator),
            Material::Isotropic(i) => i.scatter(ray_in, hit, generator),
        }
    }

    /// The emitted radiance: the emission texture for a light, black for
    /// every other material.
    pub fn emitted(&self, uv: &(Fx, Fx), point: &Vec3) -> (r: Vec3)
        requires
            material_wf(*self),
            sabs(uv.0 as int) <= COORD_MAX as int,
            sabs(uv.1 as int) <= COORD_MAX as int,
        ensures
            r == emitted_spec(*self, *uv, *point),
            self matches Material::DiffuseLight(l) ==> r == texture_value_spec(
                l.emission,
                *uv,
                *point,
            ),
            !(self matches Material::DiffuseLight(_)) ==> r == (Vec3 { x: 0, y: 0, z: 0 }),
            b3(r, EMIT_MAX as int),
    {
        match self {
            Material::DiffuseLight(l) => l.emitted(uv, point),
            _ => Vec3::new(0, 0, 0),
        }
    }
}


/// With a refractive index of one the dielectric is a no-op refractor:
/// whenever the normalized incoming direction points against the surface
/// normal, inside as well as outside the discriminant test, the outgoing
/// direction is exactly the normalized incoming direction.
pub proof fn lemma_unit_index_dielectric(dir: Vec3, normal: Vec3)
    requires
        crate::vec3::b3(dir, COORD_MAX as int),
        crate::vec3::b3(normal, UNIT_MAX as int),
        dot3u(unit3(dir), normal) < 0,
        ({
            let u = unit3(dir);
            let uvec = Vec3 { x: u.0 as i64, y: u.1 as i64, z: u.2 as i64 };
            crate::vec3::refract_dt(uvec, normal) < 0
        }),
    ensures
        dielectric_dir_spec(dir, normal, ONE) == unit3(dir),
{
    let u = unit3(dir);
    let uvec = Vec3 { x: u.0 as i64, y: u.1 as i64, z: u.2 as i64 };
    lemma_unit3_fits(dir);
    assert(u.0 == uvec.x && u.1 == uvec.y && u.2 == uvec.z);
    assert(fx_div_spec(ONE as int, ONE as int) == ONE) by (nonlinear_arith)
        requires
            ONE == 65536,
            SCALE == 65536,
    ;
    let dt = crate::vec3::refract_dt(uvec, normal);
    crate::vec3::lemma_refract_identity(uvec.x as int, normal.x as int, dt);
    crate::vec3::lemma_refract_identity(uvec.y as int, normal.y as int, dt);
    crate::vec3::lemma_refract_identity(uvec.z as int, normal.z as int, dt);
    assert(crate::vec3::refract_disc2(dt, ONE as int) == dt * dt);
    assert(dt * dt > 0) by (nonlinear_arith)
        requires
            dt < 0,
    ;
}

/// A normalized direction's components are within the scalar range.
proof fn lemma_unit3_fits(dir: Vec3)
    requires
        crate::vec3::b3(dir, COORD_MAX as int),
    ensures
        ({
            let u = unit3(dir);
            let uvec = Vec3 { x: u.0 as i64, y: u.1 as i64, z: u.2 as i64 };
            u.0 == uvec.x && u.1 == uvec.y && u.2 == uvec.z
        }),
{
    crate::vec3::lemma_unit3_bounded(dir);
}

} // verus!

use raytracer::camera::PerspectiveCamera;
use raytracer::fx::fx_div;
use raytracer::fx::fx_mul;
use raytracer::fx::fx_sqrt;
use raytracer::fx::ONE;
use raytracer::fx::SCALE;
use raytracer::geometry::Cube;
use raytracer::geometry::Rectangle;
use raytracer::geometry::Sphere;
use raytracer::geometry::TransformedGeometry;
use raytracer::mat4::Mat4;
use raytracer::mat4::Mat4Cached;
use raytracer::material::Dielectric;
use raytracer::material::DiffuseLight;
use raytracer::material::Lambertian;
use raytracer::material::Material;
use raytracer::material::Metal;
use raytracer::material::SolidColor;
use raytracer::material::Texture;
use raytracer::optimize::AxisAlignedBoundingBox;
use raytracer::optimize::BoundingVolumeHierarchyNode;
use raytracer::ray::HitRecord;
use raytracer::ray::Ray;
use raytracer::rng::Lcg;
use raytracer::scene::hit_list;
use raytracer::scene::object_hit;
use raytracer::scene::Object;
use raytracer::schedule::assemble;
use raytracer::schedule::render_image;
use raytracer::schedule::render_scanlines;
use raytracer::schedule::to_byte;
use raytracer::sprite::Sprite;
use raytracer::vec3::Vec3;
use raytracer::volume::ConstantMedium;

use std::sync::Arc;

fn units(v: i64) -> i64 {
    v * SCALE
}

fn ball_at(radius: i64, x: i64, y: i64, z: i64) -> Object {
    let inner = Arc::new(Object::Ball(Sphere::new(radius)));
    Object::Placed(TransformedGeometry::new(
        inner,
        Mat4Cached::new(Mat4::translation(Vec3::new(x, y, z))),
    ))
}

#[test]
fn mat4() {
    let mat = Mat4::identity();
    println!("{:#?}", mat.multiplied(&mat));
    println!("{:#?}", mat.determinant());
    println!("{:#?}", mat.inversed());
    println!("{:#?}", mat);
}

#[test]
fn merge_is_commutative_and_associative() {
    let a = AxisAlignedBoundingBox::new(Vec3::new(-1, -2, -3), Vec3::new(4, 5, 6));
    let b = AxisAlignedBoundingBox::new(Vec3::new(-7, 0, 1), Vec3::new(2, 9, 3));
    let c = AxisAlignedBoundingBox::new(Vec3::new(0, -9, 2), Vec3::new(1, 1, 12));
    assert_eq!(a.merged(&b), b.merged(&a));
    assert_eq!(a.merged(&b).merged(&c), a.merged(&b.merged(&c)));
    assert_eq!(a.merged(&a), a);
}

#[test]
fn hierarchy_matches_linear_scan() {
    let objects = vec![
        ball_at(units(1), units(4), 0, 0),
        ball_at(units(1), -units(6), units(2), 0),
        ball_at(units(2), 0, 0, units(9)),
        ball_at(units(1), units(3), -units(5), units(2)),
        ball_at(units(3), -units(2), units(7), -units(4)),
    ];
    let mirror = vec![
        ball_at(units(1), units(4), 0, 0),
        ball_at(units(1), -units(6), units(2), 0),
        ball_at(units(2), 0, 0, units(9)),
        ball_at(units(1), units(3), -units(5), units(2)),
        ball_at(units(3), -units(2), units(7), -units(4)),
    ];
    let mut generator = Lcg::new(7);
    let tree = BoundingVolumeHierarchyNode::new_seeded(objects, &mut generator).unwrap();
    let tree = Object::Node(tree);
    let dirs = [
        (units(1), 0, 0),
        (-units(1), 0, 0),
        (0, 0, units(1)),
        (units(1), -units(1), units(1)),
        (units(1), units(2), -units(1)),
        (0, units(1), 0),
    ];
    for (dx, dy, dz) in dirs {
        let ray = Ray::new(Vec3::new(-units(20), units(1), 0), Vec3::new(dx, dy, dz));
        let mut g1 = Lcg::new(1);
        let mut g2 = Lcg::new(1);
        let from_tree = object_hit(&tree, &ray, &mut g1);
        let from_scan = hit_list(&mirror, &ray, &mut g2);
        assert_eq!(from_tree.is_some(), from_scan.is_some());
        if let (Some(a), Some(b)) = (from_tree, from_scan) {
            assert_eq!(a.t(), b.t());
        }
    }
}

#[test]
fn sphere_head_on_hit_distance() {
    // from three units out, aimed at the centre of a unit sphere: the hit
    // comes at parameter two, exactly on the grid
    let sphere = Sphere::new(units(1));
    let ray = Ray::new(Vec3::new(units(3), 0, 0), Vec3::new(-units(1), 0, 0));
    let hit = sphere.hit(&ray).unwrap();
    assert_eq!(hit.t(), units(2));
    assert_eq!(*hit.intersection(), Vec3::new(units(1), 0, 0));
    assert_eq!(hit.normal().x, units(1));
}

#[test]
fn sphere_miss_and_inside() {
    let sphere = Sphere::new(units(1));
    let miss = Ray::new(Vec3::new(units(3), units(2), 0), Vec3::new(0, 0, units(1)));
    assert!(sphere.hit(&miss).is_none());
    // from the centre, any direction leaves through the shell at one unit
    let inside = Ray::new(Vec3::new(0, 0, 0), Vec3::new(0, units(1), 0));
    let hit = sphere.hit(&inside).unwrap();
    assert_eq!(hit.t(), units(1));
}

#[test]
fn translation_round_trip_returns_point() {
    let offset = Vec3::new(units(5), -units(3), units(11));
    let cached = Mat4Cached::new(Mat4::translation(offset));
    let forward = cached.origin();
    let inverse = cached.inversed().unwrap();
    let p = Vec3::new(units(2), units(7), -units(4));
    let moved = p.xyz1().transformed(forward);
    let back = moved.transformed(inverse);
    assert_eq!(back.xyz(), p);
}

#[test]
fn quarter_turn_round_trip_returns_point() {
    // a quarter turn about the vertical axis has exact entries, and so
    // does its inverse
    let turn = Mat4::rotation(SCALE, 0, Vec3::new(0, SCALE, 0));
    let cached = Mat4Cached::new(turn);
    let inverse = cached.inversed().unwrap();
    let p = Vec3::new(units(3), units(5), -units(2));
    let moved = p.xyz1().transformed(cached.origin());
    let back = moved.transformed(inverse);
    assert_eq!(back.xyz(), p);
}

#[test]
fn dielectric_with_unit_index_is_a_no_op() {
    let glass = Dielectric::new(ONE);
    let hit = HitRecord::new(
        units(1),
        Vec3::new(0, 0, 0),
        Vec3::new(0, 0, ONE),
        None,
        (0, 0),
    );
    // incoming straight against the normal, already unit length
    let incoming = Ray::new(Vec3::new(0, 0, units(2)), Vec3::new(0, 0, -ONE));
    let mut generator = Lcg::new(3);
    let (scattered, attenuation) = glass.scatter(&incoming, &hit, &mut generator).unwrap();
    assert_eq!(*scattered.direction(), Vec3::new(0, 0, -ONE));
    assert_eq!(attenuation, Vec3::new(ONE, ONE, ONE));
    // and at a slant, the outgoing direction still equals the incoming one
    let slanted = Ray::new(Vec3::new(0, 0, units(2)), Vec3::new(39321, 0, -52429));
    let (scattered, _) = glass.scatter(&slanted, &hit, &mut generator).unwrap();
    assert_eq!(*scattered.direction(), *slanted.direction());
}

#[test]
fn rectangle_hit_centre() {
    let rect = Rectangle::new(units(2), units(2));
    let ray = Ray::new(Vec3::new(0, 0, -units(1)), Vec3::new(0, 0, units(1)));
    let hit = rect.hit(&ray).unwrap();
    assert_eq!(hit.t(), units(1));
    assert_eq!(*hit.intersection(), Vec3::new(0, 0, 0));
    assert_eq!(*hit.uv(), (SCALE / 2, SCALE / 2));
    assert_eq!(*hit.normal(), Vec3::new(0, 0, SCALE));
}

#[test]
fn rectangle_rejects_outside_and_parallel() {
    let rect = Rectangle::new(units(2), units(2));
    let outside = Ray::new(Vec3::new(units(5), 0, -units(1)), Vec3::new(0, 0, units(1)));
    assert!(rect.hit(&outside).is_none());
    let parallel = Ray::new(Vec3::new(0, 0, -units(1)), Vec3::new(units(1), 0, 0));
    assert!(rect.hit(&parallel).is_none());
}

fn small_scene() -> Object {
    let matte = Arc::new(Material::Lambertian(Lambertian::new(Texture::Solid(
        SolidColor::new(Vec3::new(SCALE / 2, SCALE / 2, SCALE / 2)),
    ))));
    let light = Arc::new(Material::DiffuseLight(DiffuseLight::new(Texture::Solid(
        SolidColor::new(Vec3::new(units(4), units(4), units(4))),
    ))));
    let ball = Object::Figure(
        Sprite::builder()
            .geometry(Arc::new(Object::Ball(Sphere::new(units(1)))))
            .material(matte)
            .transform(Mat4::translation(Vec3::new(0, 0, units(4))))
            .build(),
    );
    let lamp = Object::Figure(
        Sprite::builder()
            .geometry(Arc::new(Object::Quad(Rectangle::new(units(2), units(2)))))
            .material(light)
            .transform(Mat4::translation(Vec3::new(0, units(3), units(4))))
            .build(),
    );
    let mut generator = Lcg::new(11);
    Object::Node(
        BoundingVolumeHierarchyNode::new_seeded(vec![ball, lamp], &mut generator).unwrap(),
    )
}

fn test_camera() -> PerspectiveCamera {
    PerspectiveCamera::new(
        Vec3::new(0, 0, -units(2)),
        Vec3::new(0, 0, units(4)),
        Vec3::new(0, SCALE, 0),
        SCALE / 2,
        SCALE,
        units(6),
        0,
    )
}

#[test]
fn render_is_deterministic_under_a_fixed_seed() {
    let world = small_scene();
    let camera = test_camera();
    let one = render_image(&world, &camera, 4, 4, 2, 42);
    let two = render_image(&world, &camera, 4, 4, 2, 42);
    assert_eq!(one.len(), 16);
    assert_eq!(one.len(), two.len());
    for i in 0..one.len() {
        assert_eq!(one[i], two[i]);
    }
}

#[test]
fn scheduler_covers_every_pixel_exactly_once() {
    let world = small_scene();
    let camera = test_camera();
    let width = 5;
    let height = 4;
    let workers = 3;
    let mut results: Vec<(usize, usize, Vec3)> = Vec::new();
    for worker in 0..workers {
        let mut part = render_scanlines(&world, &camera, width, height, 1, worker, workers, 9);
        results.append(&mut part);
    }
    assert_eq!(results.len(), width * height);
    let mut counts = vec![0usize; width * height];
    for (x, y, _) in &results {
        assert!(*x < width && *y < height);
        counts[y * width + x] += 1;
    }
    for c in counts {
        assert_eq!(c, 1);
    }
    // and the collector accepts exactly this set, in any order
    results.reverse();
    let frame = assemble(width, height, &results).unwrap();
    assert_eq!(frame.len(), width * height);
    // a duplicate is rejected
    let mut broken = results.clone();
    broken[0] = broken[1].clone();
    assert!(assemble(width, height, &broken).is_none());
    // a missing pixel is rejected
    broken.pop();
    assert!(assemble(width, height, &broken).is_none());
}

#[test]
fn metal_absorbs_rays_reflected_inward() {
    let mirror = Metal::new(
        Texture::Solid(SolidColor::new(Vec3::new(SCALE / 2, SCALE / 2, SCALE / 2))),
        0,
    );
    let hit = HitRecord::new(
        units(1),
        Vec3::new(0, 0, 0),
        Vec3::new(0, 0, ONE),
        None,
        (0, 0),
    );
    let mut generator = Lcg::new(5);
    // a ray striking against the normal reflects away from the surface
    let incoming = Ray::new(Vec3::new(0, 0, units(2)), Vec3::new(ONE / 2, 0, -ONE));
    let out = mirror.scatter(&incoming, &hit, &mut generator);
    assert!(out.is_some());
    let (scattered, _) = out.unwrap();
    assert!(scattered.direction().z > 0);
    // a ray leaving the surface would reflect inward and is absorbed
    let leaving = Ray::new(Vec3::new(0, 0, units(2)), Vec3::new(0, 0, ONE));
    assert!(mirror.scatter(&leaving, &hit, &mut generator).is_none());
}

#[test]
fn checker_texture_alternates() {
    let check = Texture::Checker(raytracer::material::CheckerTexture::new(
        Texture::Solid(SolidColor::new(Vec3::new(0, 0, 0))),
        Texture::Solid(SolidColor::new(Vec3::new(ONE, ONE, ONE))),
    ));
    // a tenth of a cell into the first half of the wave on both axes
    let first = check.value(&(SCALE / 100, SCALE / 100, ), &Vec3::new(0, 0, 0));
    assert_eq!(first, Vec3::new(0, 0, 0));
    // one axis in the second half flips the product's sign
    let second = check.value(&(SCALE / 100, 4000), &Vec3::new(0, 0, 0));
    assert_eq!(second, Vec3::new(ONE, ONE, ONE));
}

#[test]
fn image_texture_looks_up_pixels() {
    let pixels = vec![
        Vec3::new(ONE, 0, 0),
        Vec3::new(0, ONE, 0),
        Vec3::new(0, 0, ONE),
        Vec3::new(ONE, ONE, 0),
    ];
    let image = Texture::Image(raytracer::material::ImageTexture::new(2, 2, pixels));
    // low u, high v addresses the top-left pixel
    assert_eq!(image.value(&(0, SCALE - 1), &Vec3::new(0, 0, 0)), Vec3::new(ONE, 0, 0));
    // high u, low v addresses the bottom-right pixel
    assert_eq!(image.value(&(SCALE - 1, 0), &Vec3::new(0, 0, 0)), Vec3::new(ONE, ONE, 0));
}

#[test]
fn light_emits_and_never_scatters() {
    let lamp = DiffuseLight::new(Texture::Solid(SolidColor::new(Vec3::new(
        units(7),
        units(7),
        units(7),
    ))));
    let hit = HitRecord::new(
        units(1),
        Vec3::new(0, 0, 0),
        Vec3::new(0, 0, ONE),
        None,
        (0, 0),
    );
    let incoming = Ray::new(Vec3::new(0, 0, units(2)), Vec3::new(0, 0, -ONE));
    let mut generator = Lcg::new(2);
    assert!(lamp.scatter(&incoming, &hit, &mut generator).is_none());
    assert_eq!(lamp.emitted(&(0, 0), &Vec3::new(0, 0, 0)), Vec3::new(units(7), units(7), units(7)));
}

#[test]
fn fog_scatters_inside_the_boundary_only() {
    let boundary = Arc::new(ball_at(units(2), 0, 0, units(8)));
    let fog = Object::Medium(ConstantMedium::new(boundary, units(64)));
    let ray = Ray::new(Vec3::new(0, 0, 0), Vec3::new(0, 0, units(1)));
    let mut g = Lcg::new(21);
    // thick fog: the ray scatters between the entry and the exit
    let hit = object_hit(&fog, &ray, &mut g).unwrap();
    assert!(hit.t() >= units(6) && hit.t() <= units(10));
    // the same seed draws the same free path
    let mut g2 = Lcg::new(21);
    let again = object_hit(&fog, &ray, &mut g2).unwrap();
    assert_eq!(hit.t(), again.t());
    // a ray missing the boundary never scatters
    let miss = Ray::new(Vec3::new(units(10), 0, 0), Vec3::new(0, units(1), 0));
    assert!(object_hit(&fog, &miss, &mut g).is_none());
}

#[test]
fn cube_faces_surround_the_origin() {
    let faces = Cube::new(units(2), units(2), units(2));
    assert_eq!(faces.len(), 6);
    let mut generator = Lcg::new(17);
    let cube = Object::Node(
        BoundingVolumeHierarchyNode::new_seeded(faces, &mut generator).unwrap(),
    );
    let mut g = Lcg::new(1);
    // from six units out along the axis the front face stands at five
    let ray = Ray::new(Vec3::new(0, 0, -units(6)), Vec3::new(0, 0, units(1)));
    let hit = object_hit(&cube, &ray, &mut g).unwrap();
    assert_eq!(hit.t(), units(5));
    let above = Ray::new(Vec3::new(0, units(6), 0), Vec3::new(0, -units(1), 0));
    let hit = object_hit(&cube, &above, &mut g).unwrap();
    assert_eq!(hit.t(), units(5));
}

#[test]
fn gamma_bytes_are_rooted_and_clamped() {
    assert_eq!(to_byte(0), 0);
    assert_eq!(to_byte(-units(3)), 0);
    assert_eq!(to_byte(ONE), 255);
    assert_eq!(to_byte(units(9)), 255);
    // a quarter intensity has a half root
    assert_eq!(to_byte(SCALE / 4), 127);
}

#[test]
fn scalar_arithmetic_is_exact_on_the_grid() {
    assert_eq!(fx_mul(units(3), units(4)), units(12));
    assert_eq!(fx_mul(SCALE / 2, SCALE / 2), SCALE / 4);
    assert_eq!(fx_div(units(12), units(4)), units(3));
    assert_eq!(fx_div(-units(12), units(4)), -units(3));
    assert_eq!(fx_sqrt(units(4)), units(2));
    assert_eq!(fx_sqrt(0), 0);
}

#[test]
fn vectors_compose_exactly() {
    let a = Vec3::new(units(1), units(2), units(3));
    let b = Vec3::new(units(4), -units(5), units(6));
    assert_eq!(a.added(&b), Vec3::new(units(5), -units(3), units(9)));
    assert_eq!(a.dot(&b), units(4 - 10 + 18));
    assert_eq!(
        a.cross(&b),
        Vec3::new(units(2 * 6 + 3 * 5), units(3 * 4 - 1 * 6), units(-1 * 5 - 2 * 4))
    );
    assert_eq!(Vec3::new(units(3), 0, units(4)).length(), units(5));
    let n = Vec3::new(0, units(9), 0).normalized();
    assert_eq!(n, Vec3::new(0, ONE, 0));
    let reflected = Vec3::new(ONE, -ONE, 0).reflected(&Vec3::new(0, ONE, 0));
    assert_eq!(reflected, Vec3::new(ONE, ONE, 0));
}

#[test]
fn sprite_carries_its_material_into_the_record() {
    let matte = Arc::new(Material::Lambertian(Lambertian::new(Texture::Solid(
        SolidColor::new(Vec3::new(SCALE / 3, SCALE / 3, SCALE / 3)),
    ))));
    let figure = Object::Figure(
        Sprite::builder()
            .geometry(Arc::new(Object::Ball(Sphere::new(units(1)))))
            .material(matte)
            .transform(Mat4::translation(Vec3::new(0, 0, units(5))))
            .build(),
    );
    let ray = Ray::new(Vec3::new(0, 0, 0), Vec3::new(0, 0, units(1)));
    let mut g = Lcg::new(4);
    let hit = object_hit(&figure, &ray, &mut g).unwrap();
    assert_eq!(hit.t(), units(4));
    assert!(hit.material().is_some());
    // the placed-only adapter leaves the material empty
    let bare = ball_at(units(1), 0, 0, units(5));
    let hit = object_hit(&bare, &ray, &mut g).unwrap();
    assert!(hit.material().is_none());
}

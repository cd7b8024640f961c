use pathtracer::camera::Camera;
use pathtracer::fixed::SCALE;
use pathtracer::geometry::{HittableList, Sphere};
use pathtracer::linear_algebra::{Ray, Vec3};
use pathtracer::materials::{Dielectric, Lambertian, Metal, MaterialKind};
use pathtracer::random::Rng;
use pathtracer::render::{quantise, ray_colour, render, write_colour};

fn fx(x: i64) -> i64 {
    x * SCALE
}

fn demo_world() -> HittableList {
    let mut world = HittableList::new();
    world.add(Sphere::new(
        Vec3::new(0, fx(-1000), 0),
        fx(1000),
        MaterialKind::Lambertian(Lambertian::new(Vec3::new(32768, 32768, 32768))),
    ));
    world.add(Sphere::new(
        Vec3::new(0, fx(1), 0),
        fx(1),
        MaterialKind::Dielectric(Dielectric::new(98304)),
    ));
    world.add(Sphere::new(
        Vec3::new(fx(2), fx(1), 0),
        fx(1),
        MaterialKind::Metal(Metal::new(Vec3::new(45875, 39321, 32768), 0)),
    ));
    world
}

fn demo_camera() -> Camera {
    Camera::new(
        Vec3::new(fx(3), fx(2), fx(2)),
        Vec3::new(0, 0, 0),
        Vec3::new(0, fx(1), 0),
        fx(2),
        98304,
        6554,
        fx(10),
    )
}

#[test]
fn ray_colour_depth_zero_is_black() {
    let world = demo_world();
    let ray = Ray::new(Vec3::new(0, fx(1), fx(5)), Vec3::new(0, 0, fx(-1)));
    let mut rng = Rng::new(3);

    let c = ray_colour(ray, &world, 0, &mut rng);
    assert_eq!(c, Vec3::new(0, 0, 0));
}

#[test]
fn ray_colour_empty_scene_is_background() {
    let world = HittableList::new();
    let ray = Ray::new(Vec3::new(0, 0, 0), Vec3::new(0, 0, fx(-1)));

    for depth in 1..6 {
        let mut rng = Rng::new(11);
        let c = ray_colour(ray, &world, depth, &mut rng);
        assert_eq!(c, Vec3::new(49152, 55705, 65536));
    }
}

#[test]
fn gamma_is_square_root() {
    assert_eq!(quantise(16384, 1), 128);
    assert_eq!(quantise(fx(1), 1), 255);
    assert_eq!(quantise(0, 1), 0);
    assert_eq!(quantise(fx(2), 2), 255);
}

#[test]
fn colour_line_text() {
    let mut out: Vec<u8> = Vec::new();
    write_colour(&Vec3::new(fx(1), fx(1), fx(1)), 1, &mut out);
    assert_eq!(out, b"255 255 255\n".to_vec());

    let mut out2: Vec<u8> = Vec::new();
    write_colour(&Vec3::new(16384, 0, fx(1)), 1, &mut out2);
    assert_eq!(out2, b"128 0 255\n".to_vec());
}

#[test]
fn render_is_deterministic_for_a_seed() {
    let world = demo_world();
    let camera = demo_camera();

    let mut rng1 = Rng::new(42);
    let first = render(&world, &camera, 4, 3, 2, 4, &mut rng1);
    let mut rng2 = Rng::new(42);
    let second = render(&world, &camera, 4, 3, 2, 4, &mut rng2);

    assert_eq!(first, second);
}

#[test]
fn ppm_header_and_pixel_lines() {
    let world = demo_world();
    let camera = demo_camera();
    let mut rng = Rng::new(9);
    let out = render(&world, &camera, 4, 3, 2, 4, &mut rng);

    let text = String::from_utf8(out).unwrap();
    assert!(text.starts_with("P3\n4 3\n255\n"));

    let lines: Vec<&str> = text.split('\n').collect();
    assert_eq!(lines[0], "P3");
    assert_eq!(lines[1], "4 3");
    assert_eq!(lines[2], "255");
    assert_eq!(lines.len(), 3 + 12 + 1);
    assert_eq!(lines[15], "");
    for row in 0..12 {
        let fields: Vec<&str> = lines[3 + row].split(' ').collect();
        assert_eq!(fields.len(), 3);
        for field in fields {
            let value: u32 = field.parse().unwrap();
            assert!(value <= 255);
        }
    }
}

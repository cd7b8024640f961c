use pathtracer::fixed::SCALE;
use pathtracer::geometry::HitRecord;
use pathtracer::linear_algebra::{Ray, Vec3};
use pathtracer::materials::{Dielectric, EmptyMaterial, Lambertian, Metal, MaterialKind};
use pathtracer::random::Rng;

fn fx(x: i64) -> i64 {
    x * SCALE
}

fn surface(front_face: bool, material: MaterialKind) -> HitRecord {
    HitRecord {
        t: fx(1),
        hit_point: Vec3::new(0, 0, fx(-1)),
        normal: Vec3::new(0, 0, fx(1)),
        front_face,
        material,
    }
}

#[test]
fn empty_material_absorbs() {
    let material = EmptyMaterial;
    let ray = Ray::new(Vec3::new(0, 0, 0), Vec3::new(0, 0, fx(-1)));
    let record = surface(true, MaterialKind::Empty(material));
    let mut rng = Rng::new(1);

    assert!(material.scatter(&ray, &record, &mut rng).is_none());
}

#[test]
fn lambertian_always_scatters() {
    let albedo = Vec3::new(fx(1), 32768, 16384);
    let material = Lambertian::new(albedo);
    let ray = Ray::new(Vec3::new(0, 0, 0), Vec3::new(0, 0, fx(-1)));
    let record = surface(true, MaterialKind::Lambertian(material));

    for seed in 0..32 {
        let mut rng = Rng::new(seed);
        let scattered = material.scatter(&ray, &record, &mut rng).unwrap();
        assert_eq!(scattered.attenuation, albedo);
        assert_eq!(scattered.ray.origin, record.hit_point);
    }
}

#[test]
fn metal_mirror_reflection() {
    let albedo = Vec3::new(fx(1), fx(1), fx(1));
    let material = Metal::new(albedo, 0);
    let ray = Ray::new(Vec3::new(0, 0, fx(1)), Vec3::new(0, 0, fx(-1)));
    let record = surface(true, MaterialKind::Metal(material));

    for seed in 0..32 {
        let mut rng = Rng::new(seed);
        let scattered = material.scatter(&ray, &record, &mut rng).unwrap();
        assert_eq!(scattered.ray.direction, Vec3::new(0, 0, fx(1)));
        assert_eq!(scattered.attenuation, albedo);
    }
}

#[test]
fn metal_rejects_into_surface() {
    let material = Metal::new(Vec3::new(fx(1), fx(1), fx(1)), 0);
    let ray = Ray::new(Vec3::new(0, 0, fx(-2)), Vec3::new(0, 0, fx(1)));
    let record = surface(true, MaterialKind::Metal(material));

    for seed in 0..32 {
        let mut rng = Rng::new(seed);
        assert!(material.scatter(&ray, &record, &mut rng).is_none());
    }
}

#[test]
fn dielectric_total_internal_reflection() {
    let material = Dielectric::new(98304);
    let ray = Ray::new(Vec3::new(0, 0, 0), Vec3::new(fx(2), 0, fx(-1)));
    let record = surface(false, MaterialKind::Dielectric(material));

    for seed in 0..32 {
        let mut rng = Rng::new(seed);
        let scattered = material.scatter(&ray, &record, &mut rng).unwrap();
        assert_eq!(scattered.ray.direction, Vec3::new(58617, 0, 29309));
        assert_eq!(scattered.attenuation, Vec3::new(fx(1), fx(1), fx(1)));
    }
}

#[test]
fn dielectric_always_scatters() {
    let material = Dielectric::new(98304);
    let ray = Ray::new(Vec3::new(0, 0, 0), Vec3::new(0, 0, fx(-1)));
    let record = surface(true, MaterialKind::Dielectric(material));

    for seed in 0..32 {
        let mut rng = Rng::new(seed);
        let scattered = material.scatter(&ray, &record, &mut rng).unwrap();
        assert_eq!(scattered.attenuation, Vec3::new(fx(1), fx(1), fx(1)));
        assert_eq!(scattered.ray.origin, record.hit_point);
    }
}

#[test]
fn material_kind_dispatch_matches_structs() {
    let metal = Metal::new(Vec3::new(fx(1), fx(1), fx(1)), 0);
    let kind = MaterialKind::Metal(metal);
    let ray = Ray::new(Vec3::new(0, 0, fx(1)), Vec3::new(0, 0, fx(-1)));
    let record = surface(true, kind);

    let mut rng_a = Rng::new(5);
    let mut rng_b = Rng::new(5);
    let direct = metal.scatter(&ray, &record, &mut rng_a).unwrap();
    let dispatched = kind.scatter(&ray, &record, &mut rng_b).unwrap();
    assert_eq!(direct.ray.direction, dispatched.ray.direction);
    assert_eq!(direct.attenuation, dispatched.attenuation);
}

use pathtracer::fixed::SCALE;
use pathtracer::geometry::{HittableList, Sphere};
use pathtracer::linear_algebra::{Ray, Vec3};
use pathtracer::materials::{Lambertian, MaterialKind};

fn fx(x: i64) -> i64 {
    x * SCALE
}

fn grey() -> MaterialKind {
    MaterialKind::Lambertian(Lambertian::new(Vec3::new(32768, 32768, 32768)))
}

#[test]
fn hit() {
    let sphere = Sphere::new(Vec3::new(0, 0, fx(-2)), fx(1), grey());
    let hit_ray = Ray::new(Vec3::new(0, 0, 0), Vec3::new(0, 0, fx(-1)));
    let miss_ray = Ray::new(hit_ray.origin, hit_ray.origin.neg());
    let internal_ray = Ray::new(sphere.centre, hit_ray.direction);

    assert!(sphere.hit(miss_ray, 0, fx(100)).is_none());

    let hit_record = sphere.hit(hit_ray, 0, fx(100)).unwrap();
    let internal_hit_record = sphere.hit(internal_ray, 0, fx(100)).unwrap();

    assert_eq!(hit_record.t, fx(1));
    assert_eq!(internal_hit_record.t, fx(1));

    assert!(hit_record.front_face);
    assert!(!internal_hit_record.front_face);
}

#[test]
fn geometry_hit() {
    let mut list = HittableList::new();
    let sphere1 = Sphere::new(Vec3::new(0, 0, fx(-2)), fx(1), grey());
    let sphere2 = Sphere::new(Vec3::new(0, fx(10), 0), fx(1), grey());
    let sphere3 = Sphere::new(Vec3::new(0, 0, fx(-20)), fx(1), grey());
    list.add(sphere1);
    list.add(sphere2);
    list.add(sphere3);

    let miss_ray = Ray::new(Vec3::new(0, 0, 0), Vec3::new(0, 0, fx(1)));
    let ray1 = Ray::new(Vec3::new(0, 0, 0), Vec3::new(0, 0, fx(-1)));
    let ray2 = Ray::new(Vec3::new(0, 0, 0), Vec3::new(0, fx(10), 0).unit_vector());

    let miss = list.hit(miss_ray, 0, fx(100));
    let hit1 = list.hit(ray1, 0, fx(100));
    let hit2 = list.hit(ray2, 0, fx(100));

    assert!(miss.is_none());
    assert_eq!(hit1.unwrap().t, fx(1));
    assert_eq!(hit2.unwrap().t, fx(9));
}

#[test]
fn away_ray_misses() {
    let sphere = Sphere::new(Vec3::new(0, 0, fx(-2)), fx(1), grey());
    let away_ray = Ray::new(Vec3::new(0, 0, 0), Vec3::new(0, 0, fx(1)));

    assert!(sphere.hit(away_ray, 0, fx(100)).is_none());
}

#[test]
fn axial_hit_point_and_normal() {
    let sphere = Sphere::new(Vec3::new(0, 0, fx(-2)), fx(1), grey());
    let hit_ray = Ray::new(Vec3::new(0, 0, 0), Vec3::new(0, 0, fx(-1)));
    let record = sphere.hit(hit_ray, 0, fx(100)).unwrap();

    assert_eq!(record.hit_point, Vec3::new(0, 0, fx(-1)));
    assert_eq!(record.normal, Vec3::new(0, 0, fx(1)));
}

#[test]
fn cleared_list_reports_no_hit() {
    let mut list = HittableList::new();
    list.add(Sphere::new(Vec3::new(0, 0, fx(-2)), fx(1), grey()));
    list.clear();

    let ray = Ray::new(Vec3::new(0, 0, 0), Vec3::new(0, 0, fx(-1)));
    assert!(list.hit(ray, 0, fx(100)).is_none());
}

use pathtracer::fixed::SCALE;
use pathtracer::linear_algebra::{Ray, Vec3};
use pathtracer::random::{rand, Rng};
use pathtracer::linear_algebra::random_unit_vector;

fn fx(x: i64) -> i64 {
    x * SCALE
}

#[test]
fn neg() {
    let v1 = Vec3::new(fx(1), fx(2), fx(3));
    let v2 = v1.neg();

    assert_eq!(v2.x(), fx(-1));
    assert_eq!(v2.y(), fx(-2));
    assert_eq!(v2.z(), fx(-3));
}

#[test]
fn add() {
    let v1 = Vec3::new(fx(1), fx(2), fx(3));
    let v2 = Vec3::new(fx(1), fx(1), fx(1));
    let v3 = v1.add(v2);

    assert_eq!(v3.x(), fx(2));
    assert_eq!(v3.y(), fx(3));
    assert_eq!(v3.z(), fx(4));
}

#[test]
fn sub() {
    let v1 = Vec3::new(fx(1), fx(2), fx(3));
    let v2 = Vec3::new(fx(1), fx(2), fx(3));
    let v3 = v1.sub(v2);

    assert_eq!(v3.x(), 0);
    assert_eq!(v3.y(), 0);
    assert_eq!(v3.z(), 0);
}

#[test]
fn add_assign() {
    let mut v1 = Vec3::new(0, 0, 0);
    let v2 = Vec3::new(fx(1), fx(2), fx(3));
    v1.add_assign(v2);

    assert_eq!(v1.x(), fx(1));
    assert_eq!(v1.y(), fx(2));
    assert_eq!(v1.z(), fx(3));
}

#[test]
fn mul_assign() {
    let mut v = Vec3::new(fx(1), fx(2), fx(3));
    v.mul_assign(fx(2));

    assert_eq!(v.x(), fx(2));
    assert_eq!(v.y(), fx(4));
    assert_eq!(v.z(), fx(6));
}

#[test]
fn div_assign() {
    let mut v = Vec3::new(fx(1), fx(2), fx(3));
    v.div_assign(fx(2));

    assert_eq!(v.x(), 32768);
    assert_eq!(v.y(), fx(1));
    assert_eq!(v.z(), 98304);
}

#[test]
fn length() {
    let v = Vec3::new(fx(2), fx(3), fx(4));

    assert_eq!(v.length_squared(), fx(29));
    assert_eq!(v.length(), 352922);
}

#[test]
fn dot() {
    let v = Vec3::new(fx(1), fx(2), fx(3));
    let d = v.dot(&v);

    assert_eq!(d, fx(14));
}

#[test]
fn cross() {
    let i = Vec3::new(fx(1), 0, 0);
    let j = Vec3::new(0, fx(1), 0);
    let k = i.cross(&j);

    assert_eq!(k.x(), 0);
    assert_eq!(k.y(), 0);
    assert_eq!(k.z(), fx(1));
}

#[test]
fn unit_vector() {
    let v1 = Vec3::new(fx(1), fx(2), fx(3));
    let v2 = v1.unit_vector();

    assert_eq!(v2.x(), 17515);
    assert_eq!(v2.y(), 35030);
    assert_eq!(v2.z(), 52545);
    assert_eq!(v2.length(), 65534);
}

#[test]
fn at() {
    let origin = Vec3::new(fx(1), fx(1), fx(1));
    let direction = Vec3::new(fx(1), 32768, -32768);
    let ray = Ray::new(origin, direction);
    let p1 = ray.at(fx(-1));
    let p2 = ray.at(fx(1));

    assert_eq!(p1.x(), 0);
    assert_eq!(p1.y(), 32768);
    assert_eq!(p1.z(), 98304);

    assert_eq!(p2.x(), fx(2));
    assert_eq!(p2.y(), 98304);
    assert_eq!(p2.z(), 32768);
}

#[test]
fn near_zero_tolerance() {
    assert!(Vec3::new(0, 0, 0).near_zero());
    assert!(Vec3::new(16383, -16383, 16383).near_zero());
    assert!(!Vec3::new(16384, 0, 0).near_zero());
    assert!(!Vec3::new(0, 0, fx(1)).near_zero());
}

#[test]
fn rand_draws_in_range() {
    let mut rng = Rng::new(7);
    for _ in 0..200 {
        let x = rand(&mut rng, 0, SCALE);
        assert!(0 <= x && x < SCALE);
        let y = rand(&mut rng, fx(-1), fx(1));
        assert!(fx(-1) <= y && y < fx(1));
    }
}

#[test]
fn rand_same_seed_same_draws() {
    let mut a = Rng::new(123456789);
    let mut b = Rng::new(123456789);
    for _ in 0..50 {
        assert_eq!(rand(&mut a, 0, SCALE), rand(&mut b, 0, SCALE));
    }
}

#[test]
fn random_unit_vector_is_unit_length() {
    let mut rng = Rng::new(99);
    for _ in 0..50 {
        let u = random_unit_vector(&mut rng);
        let err = u.length() - SCALE;
        assert!(-64 <= err && err <= 64);
    }
}

//! Vector algebra, sphere intersection and scene-list behavior on concrete
//! fixed-point values (one world unit is 65536).

use rtrs::hittable_list::HittableList;
use rtrs::material::{Lambertian, Material};
use rtrs::ray::Ray;
use rtrs::sphere::Sphere;
use rtrs::vec3::{cross, dot, reflect, refract, unit_vector, Point3, Vec3};

const S: i64 = 65536;

fn gray() -> Material {
    Material::Lambertian(Lambertian {
        albedo: Vec3(32768, 32768, 32768),
    })
}

#[test]
fn vector_arithmetic_is_exact() {
    let a = Vec3(2 * S, -3 * S, S);
    let b = Vec3(S, S, 4 * S);
    assert_eq!(a.add(b), Vec3(3 * S, -2 * S, 5 * S));
    assert_eq!(a.sub(b), Vec3(S, -4 * S, -3 * S));
    assert_eq!(a.neg(), Vec3(-2 * S, 3 * S, -S));
    assert_eq!(a.mul(2 * S), Vec3(4 * S, -6 * S, 2 * S));
    assert_eq!(a.div(2 * S), Vec3(S, -98304, 32768));
    assert_eq!(dot(&a, &b), 2 * S - 3 * S + 4 * S);
    assert_eq!(cross(&Vec3(S, 0, 0), &Vec3(0, S, 0)), Vec3(0, 0, S));
    assert_eq!(Vec3(3 * S, 4 * S, 0).length(), 5 * S);
    assert_eq!(Vec3(3 * S, 4 * S, 0).length_squared(), 25 * S);
}

#[test]
fn near_zero_detects_only_the_zero_vector() {
    assert!(Vec3(0, 0, 0).near_zero());
    assert!(!Vec3(1, 0, 0).near_zero());
    assert!(!Vec3(0, 0, -1).near_zero());
}

#[test]
fn unit_vector_normalizes_and_guards_degenerate_input() {
    assert_eq!(unit_vector(&Vec3(0, 0, 2 * S)), Vec3(0, 0, S));
    assert_eq!(unit_vector(&Vec3(-4 * S, 0, 0)), Vec3(-S, 0, 0));
    // an input below one fixed-point step of length falls back to the z axis
    assert_eq!(unit_vector(&Vec3(0, 0, 0)), Vec3(0, 0, S));
    let u = unit_vector(&Vec3(S, S, 0));
    assert_eq!(u, Vec3(46341, 46341, 0));
}

#[test]
fn reflection_mirrors_about_the_normal() {
    let v = Vec3(S, -S, 0);
    let n = Vec3(0, S, 0);
    assert_eq!(reflect(&v, &n), Vec3(S, S, 0));
}

#[test]
fn refraction_at_normal_incidence_never_bends() {
    // the incoming unit direction is exactly opposite the unit normal
    let u = Vec3(0, 0, -S);
    let n = Vec3(0, 0, S);
    assert_eq!(refract(&u, &n, S), u);
    assert_eq!(refract(&u, &n, 98304), u);
    assert_eq!(refract(&u, &n, 43691), u);
}

#[test]
fn sphere_hit_reports_the_near_root() {
    let s = Sphere::new(&Point3(0, 0, -3 * S), S, gray()).unwrap();
    let r = Ray::new(&Point3(0, 0, 0), &Vec3(0, 0, -S));
    let rec = s.hit(&r, 66, 1 << 30).expect("ray toward the sphere must hit");
    assert_eq!(rec.t, 2 * S);
    assert_eq!(rec.p, Vec3(0, 0, -2 * S));
    assert_eq!(rec.normal, Vec3(0, 0, S));
    assert!(rec.front_face);
}

#[test]
fn sphere_behind_the_ray_is_missed() {
    let s = Sphere::new(&Point3(0, 0, -3 * S), S, gray()).unwrap();
    let r = Ray::new(&Point3(0, 0, 0), &Vec3(0, 0, S));
    assert!(s.hit(&r, 66, 1 << 30).is_none());
}

#[test]
fn origin_inside_sphere_selects_the_positive_root() {
    // the ray starts at the center: the near root is negative and must be
    // rejected in favor of the far one, which leaves through the back face
    let s = Sphere::new(&Point3(0, 0, 0), 2 * S, gray()).unwrap();
    let r = Ray::new(&Point3(0, 0, 0), &Vec3(0, 0, -S));
    let rec = s.hit(&r, 66, 1 << 30).expect("a ray from inside must hit");
    assert_eq!(rec.t, 2 * S);
    assert!(!rec.front_face);
    assert_eq!(rec.normal, Vec3(0, 0, S));
}

#[test]
fn sphere_hit_is_translation_invariant() {
    let v = Vec3(5 * S, -2 * S, 7 * S);
    let s1 = Sphere::new(&Point3(0, 0, -3 * S), S, gray()).unwrap();
    let s2 = Sphere::new(&Point3(5 * S, -2 * S, 4 * S), S, gray()).unwrap();
    let r1 = Ray::new(&Point3(0, 0, 0), &Vec3(0, 0, -S));
    let r2 = Ray::new(&Point3(5 * S, -2 * S, 7 * S), &Vec3(0, 0, -S));
    let a = s1.hit(&r1, 66, 1 << 30).unwrap();
    let b = s2.hit(&r2, 66, 1 << 30).unwrap();
    assert_eq!(a.t, b.t);
    assert_eq!(a.normal, b.normal);
    assert_eq!(a.front_face, b.front_face);
    assert_eq!(b.p, a.p.add(v));
}

#[test]
fn surface_normal_opposes_the_incoming_direction() {
    let s = Sphere::new(&Point3(0, 0, -3 * S), S, gray()).unwrap();
    for dir in [Vec3(0, 0, -S), Vec3(13107, -6553, -S), Vec3(-19660, 3276, -S)] {
        if let Some(rec) = s.hit(&Ray::new(&Point3(0, 0, 0), &dir), 66, 1 << 30) {
            assert!(dot(&dir, &rec.normal) <= 0);
        }
    }
}

#[test]
fn list_hit_returns_the_nearest_member() {
    let near = Sphere::new(&Point3(0, 0, -3 * S), S, gray()).unwrap();
    let far = Sphere::new(&Point3(0, 0, -6 * S), S, gray()).unwrap();
    let r = Ray::new(&Point3(0, 0, 0), &Vec3(0, 0, -S));
    for order in [[near, far], [far, near]] {
        let mut world = HittableList::default();
        world.add(order[0]);
        world.add(order[1]);
        let rec = world.hit(&r, 66, 1 << 30).expect("one of the spheres must be hit");
        assert_eq!(rec.t, 2 * S, "the nearest hit must win regardless of order");
    }
}

#[test]
fn empty_list_hits_nothing() {
    let world = HittableList::default();
    let r = Ray::new(&Point3(0, 0, 0), &Vec3(0, 0, -S));
    assert!(world.hit(&r, 66, 1 << 30).is_none());
}

#[test]
fn list_clear_removes_members() {
    let mut world = HittableList::default();
    world.add(Sphere::new(&Point3(0, 0, -3 * S), S, gray()).unwrap());
    world.clear();
    let r = Ray::new(&Point3(0, 0, 0), &Vec3(0, 0, -S));
    assert!(world.hit(&r, 66, 1 << 30).is_none());
}

#[test]
fn sphere_construction_refuses_bad_configuration() {
    assert!(Sphere::new(&Point3(0, 0, 0), -1, gray()).is_none());
    assert!(Sphere::new(&Point3(0, 0, 0), 1 << 40, gray()).is_none());
    assert!(Sphere::new(&Point3(1 << 40, 0, 0), S, gray()).is_none());
    let bad = Material::Lambertian(Lambertian {
        albedo: Vec3(2 * S, 0, 0),
    });
    assert!(Sphere::new(&Point3(0, 0, 0), S, bad).is_none());
    assert!(Sphere::new(&Point3(0, 0, 0), 0, gray()).is_some());
}

#[test]
fn ray_evaluates_points_along_itself() {
    let r = Ray::new(&Point3(S, 0, 0), &Vec3(0, 0, -2 * S));
    assert_eq!(*r.origin(), Vec3(S, 0, 0));
    assert_eq!(*r.direction(), Vec3(0, 0, -2 * S));
    assert_eq!(r.at(3 * S), Vec3(S, 0, -6 * S));
    let d = Ray::default();
    assert_eq!(*d.origin(), Vec3(0, 0, 0));
    assert_eq!(*d.direction(), Vec3(0, 0, S));
}

#[test]
fn random_vectors_respect_their_intervals() {
    for _ in 0..50 {
        let v = Vec3::random(None);
        for c in [v.0, v.1, v.2] {
            assert!((0..S).contains(&c));
        }
        let w = Vec3::random(Some((-S, S)));
        for c in [w.0, w.1, w.2] {
            assert!((-S..=S).contains(&c));
        }
    }
}

#[test]
fn random_unit_vectors_are_near_unit_length() {
    for _ in 0..50 {
        let v = rtrs::vec3::random_unit_vector();
        let q = v.length_squared();
        // the squared length of a normalized vector stays within a few
        // hundredths of one under fixed-point rounding
        assert!((S - 32..=S + 512).contains(&q), "length squared {q}");
        let d = rtrs::vec3::random_int_unit_disk();
        assert_eq!(d.2, 0);
        assert!(d.length_squared() < S);
        let n = Vec3(0, S, 0);
        let h = rtrs::vec3::random_on_hemisphere(&n);
        assert!(dot(&h, &n) >= 0);
    }
}

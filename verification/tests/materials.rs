//! Material scattering behavior on concrete records.

use rtrs::hittable::HitRecord;
use rtrs::material::{Dielectric, Lambertian, Material, Metal};
use rtrs::ray::Ray;
use rtrs::vec3::{dot, Point3, Vec3};

const S: i64 = 65536;

fn record(normal: Vec3, front_face: bool, mat: Material) -> HitRecord {
    HitRecord {
        p: Vec3(0, 0, -2 * S),
        t: 2 * S,
        normal,
        mat,
        front_face,
    }
}

#[test]
fn lambertian_never_absorbs() {
    let m = Lambertian {
        albedo: Vec3(52429, 52429, 0),
    };
    let rec = record(Vec3(0, 0, S), true, Material::Lambertian(m));
    let r_in = Ray::new(&Point3(0, 0, 0), &Vec3(0, 0, -S));
    for _ in 0..50 {
        let (attenuation, scattered) = m.scatter(&r_in, &rec).expect("diffuse must scatter");
        assert_eq!(attenuation, m.albedo);
        assert_eq!(*scattered.origin(), rec.p);
    }
}

#[test]
fn metal_without_fuzz_reflects_exactly() {
    let m = Metal {
        albedo: Vec3(52429, 39322, 13107),
        fuzz: None,
    };
    let rec = record(Vec3(0, S, 0), true, Material::Metal(m));
    let r_in = Ray::new(&Point3(0, 0, 0), &Vec3(S, -S, 0));
    let (attenuation, scattered) = m.scatter(&r_in, &rec).expect("an upward reflection scatters");
    assert_eq!(attenuation, m.albedo);
    // the mirrored direction of (1, -1, 0) about the y axis, normalized
    assert_eq!(*scattered.direction(), Vec3(46341, 46341, 0));
    assert!(dot(scattered.direction(), &rec.normal) > 0);
}

#[test]
fn metal_absorbs_exactly_when_reflection_points_inward() {
    let m = Metal {
        albedo: Vec3(52429, 39322, 13107),
        fuzz: None,
    };
    let rec = record(Vec3(0, S, 0), true, Material::Metal(m));
    // the acceptance decision is an if-and-only-if on the candidate direction
    assert!(m.scatter_with(Vec3(0, S, 0), &rec).is_some());
    assert!(m.scatter_with(Vec3(0, -S, 0), &rec).is_none());
    assert!(m.scatter_with(Vec3(S, 0, 0), &rec).is_none());
    // a reflection computed against an inverted normal points into the
    // surface and must be absorbed
    let inverted = record(Vec3(0, -S, 0), false, Material::Metal(m));
    let r_in = Ray::new(&Point3(0, 0, 0), &Vec3(S, -S, 0));
    assert!(m.scatter(&r_in, &inverted).is_none());
}

#[test]
fn metal_fuzz_perturbs_but_keeps_the_hemisphere() {
    let m = Metal {
        albedo: Vec3(32768, 32768, 32768),
        fuzz: Some(19661),
    };
    let rec = record(Vec3(0, S, 0), true, Material::Metal(m));
    let r_in = Ray::new(&Point3(0, 0, 0), &Vec3(S, -S, 0));
    for _ in 0..50 {
        if let Some((_, scattered)) = m.scatter(&r_in, &rec) {
            assert!(dot(scattered.direction(), &rec.normal) > 0);
        }
    }
}

#[test]
fn dielectric_reflects_under_total_internal_reflection() {
    let m = Dielectric {
        refractive_index: 98304,
        albedo: Vec3(S, S, S),
    };
    // a back-face hit at a grazing angle: sin is 0.8, and 1.5 * 0.8 > 1
    let rec = record(Vec3(0, S, 0), false, Material::Dielectric(m));
    let r_in = Ray::new(&Point3(0, 0, 0), &Vec3(4 * S, -3 * S, 0));
    let (attenuation, scattered) = m.scatter(&r_in, &rec).expect("dielectrics never absorb");
    assert_eq!(attenuation, Vec3(S, S, S));
    assert_eq!(*scattered.direction(), Vec3(52428, 39321, 0));
}

#[test]
fn index_matched_dielectric_keeps_the_ray_straight() {
    // at refractive index one and normal incidence the Schlick reflectance
    // is exactly zero, so the ray is refracted without bending
    let m = Dielectric {
        refractive_index: S,
        albedo: Vec3(S, S, S),
    };
    let rec = record(Vec3(0, 0, S), true, Material::Dielectric(m));
    let r_in = Ray::new(&Point3(0, 0, 0), &Vec3(0, 0, -2 * S));
    for _ in 0..20 {
        let (attenuation, scattered) = m.scatter(&r_in, &rec).expect("dielectrics never absorb");
        assert_eq!(attenuation, Vec3(S, S, S));
        assert_eq!(*scattered.direction(), Vec3(0, 0, -S));
    }
}

#[test]
fn dielectric_never_absorbs() {
    let m = Dielectric {
        refractive_index: 98304,
        albedo: Vec3(S, S, S),
    };
    let rec = record(Vec3(0, 0, S), true, Material::Dielectric(m));
    for _ in 0..50 {
        let r_in = Ray::new(&Point3(0, 0, 0), &Vec3(13107, -6553, -S));
        assert!(m.scatter(&r_in, &rec).is_some());
    }
}

#[test]
fn schlick_reflectance_matches_the_closed_form() {
    // r0 = ((1 - 1.5) / (1 + 1.5))^2 is 0.04, and the fifth-power term
    // vanishes at normal incidence
    assert_eq!(Dielectric::reflectance(S, 98304), 2621);
    // at ratio one the reflectance is exactly zero for normal incidence
    assert_eq!(Dielectric::reflectance(S, S), 0);
}

#[test]
fn material_defaults_match_their_documented_values() {
    let l = Lambertian::default();
    assert_eq!(l.albedo, Vec3(0, 0, 0));
    let m = Metal::default();
    assert_eq!(m.albedo, Vec3(32768, 32768, 32768));
    assert!(m.fuzz.is_none());
    let d = Dielectric::default();
    assert_eq!(d.refractive_index, S);
    assert_eq!(d.albedo, Vec3(S, S, S));
}

#[test]
fn material_dispatch_reaches_each_variant() {
    let rec_n = Vec3(0, 0, S);
    let lam = Material::Lambertian(Lambertian {
        albedo: Vec3(6554, 13107, 32768),
    });
    let rec = record(rec_n, true, lam);
    let r_in = Ray::new(&Point3(0, 0, 0), &Vec3(0, 0, -S));
    let (attenuation, _) = lam.scatter(&r_in, &rec).expect("diffuse must scatter");
    assert_eq!(attenuation, Vec3(6554, 13107, 32768));
    let die = Material::Dielectric(Dielectric {
        refractive_index: 98304,
        albedo: Vec3(S, S, S),
    });
    assert!(die.scatter(&r_in, &record(rec_n, true, die)).is_some());
}

#[test]
fn dielectric_tints_only_on_front_face_refraction() {
    // index-matched normal incidence forces refraction (the Schlick
    // reflectance is exactly zero), so a colored dielectric must tint by its
    // albedo when entering through a front face and stay white when exiting
    let m = Dielectric {
        refractive_index: S,
        albedo: Vec3(52429, 39322, 26214),
    };
    let r_in = Ray::new(&Point3(0, 0, 0), &Vec3(0, 0, -2 * S));
    let front = record(Vec3(0, 0, S), true, Material::Dielectric(m));
    for _ in 0..20 {
        let (attenuation, scattered) = m.scatter(&r_in, &front).expect("dielectrics never absorb");
        assert_eq!(attenuation, m.albedo, "entering refraction carries the tint");
        assert_eq!(*scattered.direction(), Vec3(0, 0, -S));
    }
    let back = record(Vec3(0, 0, S), false, Material::Dielectric(m));
    for _ in 0..20 {
        let (attenuation, _) = m.scatter(&r_in, &back).expect("dielectrics never absorb");
        assert_eq!(attenuation, Vec3(S, S, S), "exiting refraction stays white");
    }
}

//! Ready-made scenes: a small fixed arrangement and a large random field.

use crate::fx::fx_mul;
use crate::hittable_list::{list_wf, HittableList};
use crate::material::{Dielectric, Lambertian, Material, Metal};
use crate::rng::rand_unit;
use crate::sphere::Sphere;
use crate::vec3::{v_len, v_sub, Point3, Vec3};
use vstd::prelude::*;

verus! {

/// The ground sphere of the random scene.
pub open spec fn ground_sphere() -> Sphere {
    Sphere {
        center: Vec3(0i64, -65536000i64, 0i64),
        radius: 65536000,
        mat: Material::Lambertian(Lambertian { albedo: Vec3(32768i64, 32768i64, 32768i64) }),
    }
}

/// The glass centerpiece of the random scene.
pub open spec fn big_glass_sphere() -> Sphere {
    Sphere {
        center: Vec3(0i64, 65536i64, 0i64),
        radius: 65536,
        mat: Material::Dielectric(
            Dielectric { refractive_index: 98304, albedo: Vec3(65536i64, 65536i64, 65536i64) },
        ),
    }
}

/// The diffuse centerpiece of the random scene.
pub open spec fn big_diffuse_sphere() -> Sphere {
    Sphere {
        center: Vec3(-262144i64, 65536i64, 0i64),
        radius: 65536,
        mat: Material::Lambertian(Lambertian { albedo: Vec3(26214i64, 13107i64, 6554i64) }),
    }
}

/// The metal centerpiece of the random scene.
pub open spec fn big_metal_sphere() -> Sphere {
    Sphere {
        center: Vec3(262144i64, 65536i64, 0i64),
        radius: 65536,
        mat: Material::Metal(Metal { albedo: Vec3(45875i64, 39322i64, 32768i64), fuzz: None }),
    }
}

/// A fixed five-sphere arrangement: a large diffuse ground, a diffuse
/// center, a glass sphere with an air bubble inside it, and a fuzzy metal
/// sphere.
pub fn default_scene() -> (world: HittableList)
    ensures
        world.objects@.len() == 5,
        list_wf(world.objects@),
        world.objects@[0] == (Sphere {
            center: Vec3(0i64, -6586368i64, -65536i64),
            radius: 6553600,
            mat: Material::Lambertian(Lambertian { albedo: Vec3(52429i64, 52429i64, 0i64) }),
        }),
        world.objects@[1] == (Sphere {
            center: Vec3(0i64, 0i64, -78643i64),
            radius: 32768,
            mat: Material::Lambertian(Lambertian { albedo: Vec3(6554i64, 13107i64, 32768i64) }),
        }),
        world.objects@[2] == (Sphere {
            center: Vec3(-65536i64, 0i64, -65536i64),
            radius: 32768,
            mat: Material::Dielectric(
                Dielectric { refractive_index: 98304, albedo: Vec3(65536i64, 65536i64, 65536i64) },
            ),
        }),
        world.objects@[3] == (Sphere {
            center: Vec3(-65536i64, 0i64, -65536i64),
            radius: 26214,
            mat: Material::Dielectric(
                Dielectric { refractive_index: 43691, albedo: Vec3(65536i64, 65536i64, 65536i64) },
            ),
        }),
        world.objects@[4] == (Sphere {
            center: Vec3(65536i64, 0i64, -65536i64),
            radius: 32768,
            mat: Material::Metal(
                Metal { albedo: Vec3(52429i64, 39322i64, 13107i64), fuzz: Some(19661) },
            ),
        }),
{
    let mut world = HittableList::default();

    let material_ground = Material::Lambertian(Lambertian { albedo: Vec3(52429i64, 52429i64, 0i64) });
    let material_center = Material::Lambertian(Lambertian { albedo: Vec3(6554i64, 13107i64, 32768i64) });
    let material_left = Material::Dielectric(
        Dielectric { refractive_index: 98304, albedo: Vec3(65536i64, 65536i64, 65536i64) },
    );
    let material_bubble = Material::Dielectric(
        Dielectric { refractive_index: 43691, albedo: Vec3(65536i64, 65536i64, 65536i64) },
    );
    let material_right = Material::Metal(
        Metal { albedo: Vec3(52429i64, 39322i64, 13107i64), fuzz: Some(19661) },
    );

    world.add(Sphere::new(&Point3(0, -6586368, -65536), 6553600, material_ground).unwrap());
    world.add(Sphere::new(&Point3(0, 0, -78643), 32768, material_center).unwrap());
    world.add(Sphere::new(&Point3(-65536, 0, -65536), 32768, material_left).unwrap());
    world.add(Sphere::new(&Point3(-65536, 0, -65536), 26214, material_bubble).unwrap());
    world.add(Sphere::new(&Point3(65536, 0, -65536), 32768, material_right).unwrap());

    world
}

/// A grid sphere of the random scene: radius one fifth, resting at height
/// one fifth, and clear of the metal centerpiece by more than nine tenths.
pub open spec fn grid_sphere_ok(s: Sphere) -> bool {
    &&& s.radius == 13107
    &&& s.center.1 == 13107
    &&& v_len(v_sub(s.center, Vec3(262144i64, 13107i64, 0i64))) > 58982
}

/// A large random scene: a gray ground sphere, a grid of small spheres with
/// randomly chosen materials (skipping positions near the metal
/// centerpiece), and three unit spheres of glass, diffuse and metal. The
/// ground always comes first and the three centerpieces always come last;
/// every member is a valid sphere.
pub fn test_scene() -> (world: HittableList)
    ensures
        4 <= world.objects@.len() <= 488,
        list_wf(world.objects@),
        world.objects@[0] == ground_sphere(),
        world.objects@[world.objects@.len() - 3] == big_glass_sphere(),
        world.objects@[world.objects@.len() - 2] == big_diffuse_sphere(),
        world.objects@[world.objects@.len() - 1] == big_metal_sphere(),
        forall|i: int|
            1 <= i < world.objects@.len() - 3 ==> grid_sphere_ok(#[trigger] world.objects@[i]),
{
    let mut world = HittableList::default();

    let ground_material = Material::Lambertian(Lambertian { albedo: Vec3(32768i64, 32768i64, 32768i64) });
    world.add(Sphere::new(&Point3(0, -65536000, 0), 65536000, ground_material).unwrap());

    let mut ia: u32 = 0;
    while ia < 22
        invariant
            ia <= 22,
            1 <= world.objects@.len() <= 1 + ia as int * 22,
            list_wf(world.objects@),
            world.objects@[0] == ground_sphere(),
            forall|i: int|
                1 <= i < world.objects@.len() ==> grid_sphere_ok(#[trigger] world.objects@[i]),
        decreases 22 - ia,
    {
        let mut ib: u32 = 0;
        while ib < 22
            invariant
                ia < 22,
                ib <= 22,
                1 <= world.objects@.len() <= 1 + ia as int * 22 + ib as int,
                list_wf(world.objects@),
                world.objects@[0] == ground_sphere(),
                forall|i: int|
                    1 <= i < world.objects@.len() ==> grid_sphere_ok(
                        #[trigger] world.objects@[i],
                    ),
            decreases 22 - ib,
        {
            let a: i64 = ia as i64 - 11;
            let b: i64 = ib as i64 - 11;
            let choose_mat = rand_unit();
            let rx = rand_unit();
            let rz = rand_unit();
            proof {
                crate::fx::lemma_fxm_unit(58982, rx as int);
                crate::fx::lemma_fxm_unit(58982, rz as int);
            }
            let center = Point3(
                a * 65536 + fx_mul(58982, rx),
                13107,
                b * 65536 + fx_mul(58982, rz),
            );
            let away = center.sub(Point3(262144, 13107, 0));
            if away.length() > 58982 {
                let sphere_material: Material = if choose_mat < 52429 {
                    let r1 = Vec3::random(None);
                    let r2 = Vec3::random(None);
                    proof {
                        crate::fx::lemma_fxm_unit(r1.0 as int, r2.0 as int);
                        crate::fx::lemma_fxm_unit(r1.1 as int, r2.1 as int);
                        crate::fx::lemma_fxm_unit(r1.2 as int, r2.2 as int);
                    }
                    let albedo = r1.mul_elem(r2);
                    Material::Lambertian(Lambertian { albedo })
                } else if choose_mat < 62259 {
                    let albedo = Vec3::random(Some((32768, 65536)));
                    let fuzz = fx_mul(rand_unit(), 32768);
                    Material::Metal(Metal { albedo, fuzz: Some(fuzz) })
                } else {
                    Material::Dielectric(
                        Dielectric { refractive_index: 98304, albedo: Vec3(65536i64, 65536i64, 65536i64) },
                    )
                };
                world.add(Sphere::new(&center, 13107, sphere_material).unwrap());
            }
            proof {
                assert(1 + ia as int * 22 + ib as int + 1 <= 1 + ia as int * 22 + 22);
            }
            ib = ib + 1;
        }
        proof {
            assert((ia as int + 1) * 22 == ia as int * 22 + 22) by (nonlinear_arith);
        }
        ia = ia + 1;
    }

    let material1 = Material::Dielectric(
        Dielectric { refractive_index: 98304, albedo: Vec3(65536i64, 65536i64, 65536i64) },
    );
    world.add(Sphere::new(&Point3(0, 65536, 0), 65536, material1).unwrap());

    let material2 = Material::Lambertian(Lambertian { albedo: Vec3(26214i64, 13107i64, 6554i64) });
    world.add(Sphere::new(&Point3(-262144, 65536, 0), 65536, material2).unwrap());

    let material3 = Material::Metal(Metal { albedo: Vec3(45875i64, 39322i64, 32768i64), fuzz: None });
    world.add(Sphere::new(&Point3(262144, 65536, 0), 65536, material3).unwrap());

    world
}

} // verus!

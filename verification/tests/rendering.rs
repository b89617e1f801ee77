//! Camera derivation, the radiance integrator and whole-frame rendering.

use rtrs::camera::{Camera, CameraBuilder};
use rtrs::color::{gamma_correction, linear_to_gamma, quantize_channel};
use rtrs::hittable_list::HittableList;
use rtrs::image::ImageInfo;
use rtrs::material::{Lambertian, Material};
use rtrs::ray::Ray;
use rtrs::scenes::{default_scene, test_scene};
use rtrs::sphere::Sphere;
use rtrs::vec3::{Point3, Vec3};

const S: i64 = 65536;

fn simple_camera(width: u32, height: u32, spp: u32, depth: u32) -> Camera {
    CameraBuilder::new(
        &ImageInfo::from_dim(width, height),
        &Point3(0, 0, 0),
        &Point3(0, 0, -2 * S),
    )
    .samples_per_pixel(spp)
    .max_depth(depth)
    .focus_dist(2 * S)
    .build()
    .expect("a plain axis-aligned camera is valid")
}

#[test]
fn camera_derives_an_orthonormal_basis() {
    let cam = simple_camera(8, 8, 1, 4);
    assert_eq!(cam.w, Vec3(0, 0, S));
    assert_eq!(cam.u, Vec3(S, 0, 0));
    assert_eq!(cam.v, Vec3(0, S, 0));
    // fov 90 over a focus distance of two spans a four-unit viewport, so a
    // pixel of an 8x8 image is half a unit wide
    assert_eq!(cam.pixel_delta_u, Vec3(32768, 0, 0));
    assert_eq!(cam.pixel_delta_v, Vec3(0, -32768, 0));
    assert_eq!(cam.pixel00_loc, Vec3(-2 * S + 16384, 2 * S - 16384, -2 * S));
    // no defocus configured: the disk basis vanishes and rays start at the eye
    assert_eq!(cam.defocus_disk_u, Vec3(0, 0, 0));
    assert_eq!(cam.defocus_disk_v, Vec3(0, 0, 0));
}

#[test]
fn camera_refuses_degenerate_configuration() {
    let info = ImageInfo::from_dim(8, 8);
    // up vector parallel to the view direction
    assert!(CameraBuilder::new(&info, &Point3(0, 0, 0), &Point3(0, 0, -2 * S))
        .vup(Vec3(0, 0, S))
        .build()
        .is_none());
    // eye and target coincide
    assert!(CameraBuilder::new(&info, &Point3(0, 0, 0), &Point3(0, 0, 0))
        .build()
        .is_none());
    // zero-sized image
    assert!(
        CameraBuilder::new(&ImageInfo::from_dim(0, 8), &Point3(0, 0, 0), &Point3(0, 0, -2 * S))
            .build()
            .is_none()
    );
    // a field of view of zero degrees
    assert!(CameraBuilder::new(&info, &Point3(0, 0, 0), &Point3(0, 0, -2 * S))
        .fov(0)
        .build()
        .is_none());
    // a nonpositive focus distance
    assert!(CameraBuilder::new(&info, &Point3(0, 0, 0), &Point3(0, 0, -2 * S))
        .focus_dist(0)
        .build()
        .is_none());
}

#[test]
fn reinitialization_recomputes_the_grid() {
    let mut cam = simple_camera(8, 8, 1, 4);
    assert!(cam.initialize(ImageInfo::from_dim(16, 16), 2, 90 * S));
    assert_eq!(cam.image_info.image_width, 16);
    assert_eq!(cam.samples_per_pixel, 2);
    assert_eq!(cam.pixel_delta_u, Vec3(16384, 0, 0));
    // an invalid reinitialization is refused and changes nothing
    let before = cam;
    assert!(!cam.initialize(ImageInfo::from_dim(0, 16), 2, 90 * S));
    assert_eq!(cam, before);
}

#[test]
fn missed_rays_return_the_background_gradient() {
    let world = HittableList::default();
    // straight up: the blend is one, giving pure sky blue
    let up = Ray::new(&Point3(0, 0, 0), &Vec3(0, S, 0));
    assert_eq!(Camera::ray_color(&up, 4, &world), Vec3(32768, 45875, 65536));
    // straight down: the blend is zero, giving pure white
    let down = Ray::new(&Point3(0, 0, 0), &Vec3(0, -S, 0));
    assert_eq!(Camera::ray_color(&down, 4, &world), Vec3(S, S, S));
    // horizontal: the blend is one half
    let level = Ray::new(&Point3(0, 0, 0), &Vec3(0, 0, S));
    assert_eq!(Camera::ray_color(&level, 4, &world), Vec3(49152, 55705, 65536));
}

#[test]
fn background_red_is_monotone_in_the_vertical_component() {
    let world = HittableList::default();
    let mut last_red = i64::MAX;
    let mut y = -S;
    while y <= S {
        let r = Ray::new(&Point3(0, 0, 0), &Vec3(0, y, 0));
        let c = Camera::ray_color(&r, 4, &world);
        // normalizing keeps the sign of y, so red never grows as y climbs
        assert!(c.0 <= last_red);
        assert_eq!(c.2, S, "the blue channel is constant across the gradient");
        last_red = c.0;
        y += 16384;
    }
}

#[test]
fn depth_zero_returns_black_everywhere() {
    let world = test_scene();
    for dir in [Vec3(0, S, 0), Vec3(0, -S, 0), Vec3(13107, 6553, -S)] {
        let r = Ray::new(&Point3(851968, 131072, 196608), &dir);
        assert_eq!(Camera::ray_color(&r, 0, &world), Vec3(0, 0, 0));
    }
}

#[test]
fn ground_scene_splits_into_sky_and_shadow() {
    // a single huge diffuse sphere below the camera, one sample per pixel,
    // depth one: top rows are exactly the sky formula (blue saturates at
    // one), bottom rows have exhausted their depth after one bounce
    let mut world = HittableList::default();
    let ground = Material::Lambertian(Lambertian {
        albedo: Vec3(52429, 52429, 0),
    });
    world.add(Sphere::new(&Point3(0, -6586368, -65536), 6553600, ground).unwrap());
    let cam = simple_camera(8, 8, 1, 1);
    let img = cam.render(&world);
    assert_eq!(img.len(), 64);
    for i in 0..8 {
        let top = img[i];
        assert_eq!(top.2, S, "top-row rays miss and take the sky formula");
        assert!(top.0 >= 32768 && top.1 >= 32768);
        let bottom = img[56 + i];
        assert_eq!(bottom, Vec3(0, 0, 0), "bottom-row rays hit and run out of depth");
    }
}

#[test]
fn three_sphere_scene_renders_fully() {
    fastrand::seed(7);
    let world = test_scene();
    let cam = CameraBuilder::new(
        &ImageInfo::from_dim(16, 9),
        &Point3(13 * S, 2 * S, 3 * S),
        &Point3(0, 0, 0),
    )
    .samples_per_pixel(2)
    .max_depth(4)
    .fov(20 * S)
    .focus_dist(10 * S)
    .defocus_angle(39322)
    .build()
    .expect("the showcase camera is valid");
    let img = cam.render(&world);
    assert_eq!(img.len(), 144);
    let mut nonzero = 0;
    for p in &img {
        assert!(p.0 >= 0 && p.1 >= 0 && p.2 >= 0);
        if p.0 > 0 || p.1 > 0 || p.2 > 0 {
            nonzero += 1;
        }
    }
    assert!(nonzero >= 120, "only {nonzero} of 144 pixels carry light");
}

#[test]
fn more_samples_reduce_estimator_variance() {
    let world = default_scene();
    let reps = 24;
    let variance_of = |spp: u32| -> i128 {
        let cam = simple_camera(1, 1, spp, 8);
        let mut values: Vec<i128> = Vec::new();
        for _ in 0..reps {
            let img = cam.render(&world);
            values.push(img[0].0 as i128);
        }
        let mean: i128 = values.iter().sum::<i128>() / reps as i128;
        values.iter().map(|v| (v - mean) * (v - mean)).sum::<i128>() / reps as i128
    };
    fastrand::seed(20240917);
    let coarse = variance_of(1);
    fastrand::seed(20240917);
    let fine = variance_of(16);
    assert!(
        fine < coarse,
        "variance must shrink with more samples: {fine} !< {coarse}"
    );
}

#[test]
fn gamma_correction_quantizes_exactly() {
    assert_eq!(linear_to_gamma(16384), 32768);
    assert_eq!(linear_to_gamma(0), 0);
    assert_eq!(linear_to_gamma(-5), 0);
    assert_eq!(quantize_channel(65536), 255);
    assert_eq!(quantize_channel(32768), 128);
    assert_eq!(quantize_channel(-1), 0);
    assert_eq!(gamma_correction(&Vec3(S, 16384, 0)), (255, 128, 0));
}

#[test]
fn image_info_relates_dimensions_and_aspect() {
    let d = ImageInfo::default();
    assert_eq!((d.image_width, d.image_height), (400, 225));
    let i = ImageInfo::from_dim(640, 360);
    assert_eq!(i.aspect_ratio(), 116508);
    let j = ImageInfo::from_aspect(225, 116509);
    assert_eq!(j.image_width, 400);
    assert_eq!(j.image_height, 225);
}

#[test]
fn prebuilt_scenes_have_their_documented_shape() {
    let five = default_scene();
    assert_eq!(five.objects.len(), 5);
    assert_eq!(five.objects[0].center, Vec3(0, -6586368, -65536));
    assert_eq!(five.objects[0].radius, 6553600);
    assert_eq!(five.objects[1].radius, 32768);
    fastrand::seed(11);
    let big = test_scene();
    let n = big.objects.len();
    assert!((4..=488).contains(&n));
    assert_eq!(big.objects[0].center, Vec3(0, -65536000, 0));
    assert_eq!(big.objects[n - 3].center, Vec3(0, S, 0));
    assert_eq!(big.objects[n - 2].center, Vec3(-4 * S, S, 0));
    assert_eq!(big.objects[n - 1].center, Vec3(4 * S, S, 0));
    for s in &big.objects {
        assert!(s.radius > 0);
    }
}

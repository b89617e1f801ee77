//! The camera: derives a view frustum from its configuration, synthesizes
//! jittered per-pixel rays, and drives the recursive radiance integrator.

use crate::fx::{
    fx_div, fx_mul, fxd, fxm, lemma_fxm_bound, lemma_fxm_one, lemma_fxm_unit, lemma_tdiv_bounds,
    sadd, sat_add, sat_sub, ssub, tdiv, FX_ONE,
};
use crate::hittable_list::{list_hit_spec, list_wf, HittableList};
use crate::material::{color_wf, scatter_attenuation_ok};
use crate::sphere::Sphere;
use crate::image::ImageInfo;
use crate::ray::{ray_wf, Ray};
use crate::rng::rand_unit;
use crate::sphere::P_LIM;
use crate::vec3::{
    cross, disk_sample_ok, random_int_unit_disk, unit_vector, v_add, v_cross, v_div, v_in_box,
    v_len_sq, v_mul_elem, v_neg, v_scale, v_sub, v_unit, Point3, Vec3,
};
use vstd::prelude::*;

verus! {

/// The lower end of the hit interval used by the integrator (about a
/// thousandth of a unit, excluding self-intersection).
pub const T_MIN_HIT: i64 = 66;

/// The upper end of the hit interval used by the integrator (the stand-in
/// for an unbounded search).
pub const T_LIMIT: i64 = 0x4000_0000;

/// The rational approximation to the sine of `x` fixed-point degrees:
/// `4 x (180 - x) / (40500 - x (180 - x))`, exact over fixed-point values.
pub open spec fn bh_g(x: int) -> int {
    fxm(x, ssub(180 * FX_ONE as int, x))
}

/// See `bh_g`: the sine approximation itself.
pub open spec fn bh_sin_spec(x: int) -> int {
    fxd(4 * bh_g(x), ssub(40500 * FX_ONE as int, bh_g(x)))
}

/// Half an angle given in fixed-point degrees.
pub open spec fn cam_half(angle: int) -> int {
    tdiv(angle, 2)
}

/// The tangent of half the given angle, as the ratio of the sine
/// approximations of the half-angle and its complement.
pub open spec fn cam_tan(angle: int) -> int {
    fxd(
        bh_sin_spec(cam_half(angle)),
        bh_sin_spec(ssub(90 * FX_ONE as int, cam_half(angle))),
    )
}

/// The sine approximation, with its value pinned to the spec and bounded by
/// one.
pub fn bh_sin(x: i64) -> (r: i64)
    requires
        0 <= x <= 180 * FX_ONE,
    ensures
        r as int == bh_sin_spec(x as int),
        0 <= r <= FX_ONE,
{
    let s: i64 = FX_ONE;
    let g = fx_mul(x, sat_sub(180 * s, x));
    proof {
        let si = FX_ONE as int;
        assert((180 * si) * (180 * si) <= i64::MAX as int * FX_ONE as int) by (nonlinear_arith)
            requires
                si == 65536,
        ;
        lemma_fxm_bound(x as int, 180 * si - x as int, 180 * si, 180 * si);
        assert(x as int * (180 * si - x as int) <= (90 * si) * (90 * si)) by (nonlinear_arith)
            requires
                0 <= x as int <= 180 * si,
        ;
        assert(x as int * (180 * si - x as int) >= 0) by (nonlinear_arith)
            requires
                0 <= x as int <= 180 * si,
        ;
        lemma_tdiv_bounds(
            x as int * (180 * si - x as int),
            (90 * si) * (90 * si),
            si,
        );
        vstd::arithmetic::div_mod::lemma_div_is_ordered(
            x as int * (180 * si - x as int),
            (90 * si) * (90 * si),
            si,
        );
        vstd::arithmetic::div_mod::lemma_div_by_multiple(8100 * si, si);
        assert((90 * si) * (90 * si) == (8100 * si) * si) by (nonlinear_arith);
        assert(g as int <= 8100 * si);
        assert(g >= 0);
    }
    let denom = sat_sub(40500 * s, g);
    let r = fx_div(4 * g, denom);
    proof {
        let si = FX_ONE as int;
        let gi = g as int;
        let di = denom as int;
        vstd::arithmetic::div_mod::lemma_div_pos_is_pos(4 * gi * si, di);
        assert(4 * gi * si <= di * si) by (nonlinear_arith)
            requires
                di == 40500 * si - gi,
                gi <= 8100 * si,
                si == 65536,
        ;
        vstd::arithmetic::div_mod::lemma_div_is_ordered(4 * gi * si, di * si, di);
        vstd::arithmetic::div_mod::lemma_div_by_multiple(si, di);
        assert(si * di == di * si) by (nonlinear_arith);
    }
    r
}

/// The camera: configuration fields plus the derived frustum state, valid
/// only after a successful initialization.
#[derive(Clone, Copy, Debug, PartialEq)]
pub struct Camera {
    pub max_depth: u32,
    pub image_info: ImageInfo,
    pub samples_per_pixel: u32,
    pub fov: i64,
    pub look_from: Point3,
    pub look_at: Point3,
    pub vup: Vec3,
    pub defocus_angle: i64,
    pub focus_dist: i64,
    pub u: Vec3,
    pub v: Vec3,
    pub w: Vec3,
    pub pixel00_loc: Point3,
    pub pixel_delta_u: Vec3,
    pub pixel_delta_v: Vec3,
    pub defocus_disk_u: Vec3,
    pub defocus_disk_v: Vec3,
}

/// The configuration with the reinitializable fields replaced.
pub open spec fn cam_with(c: Camera, image_info: ImageInfo, spp: u32, fov: i64) -> Camera {
    Camera { image_info, samples_per_pixel: spp, fov, ..c }
}

/// The viewing direction (from the target to the eye).
pub open spec fn cam_ray_dir(c: Camera) -> Vec3 {
    v_sub(c.look_from, c.look_at)
}

/// The normalized viewing axis.
pub open spec fn cam_w(c: Camera) -> Vec3 {
    v_unit(cam_ray_dir(c))
}

/// The unnormalized horizontal axis.
pub open spec fn cam_cross_up(c: Camera) -> Vec3 {
    v_cross(c.vup, cam_w(c))
}

/// The normalized horizontal axis.
pub open spec fn cam_u(c: Camera) -> Vec3 {
    v_unit(cam_cross_up(c))
}

/// The vertical axis.
pub open spec fn cam_v(c: Camera) -> Vec3 {
    v_cross(cam_w(c), cam_u(c))
}

/// The viewport height: twice the half-fov tangent times the focus distance.
pub open spec fn cam_vh(c: Camera) -> int {
    sadd(fxm(cam_tan(c.fov as int), c.focus_dist as int), fxm(cam_tan(c.fov as int), c.focus_dist as int))
}

/// The viewport width: the height scaled by the image's aspect ratio.
pub open spec fn cam_vw(c: Camera) -> int {
    fxm(cam_vh(c), fxd(c.image_info.image_width as int, c.image_info.image_height as int))
}

/// The viewport's horizontal edge vector.
pub open spec fn cam_viewport_u(c: Camera) -> Vec3 {
    v_scale(cam_u(c), cam_vw(c))
}

/// The viewport's vertical edge vector (pointing down the image).
pub open spec fn cam_viewport_v(c: Camera) -> Vec3 {
    v_scale(v_neg(cam_v(c)), cam_vh(c))
}

/// The per-pixel horizontal step.
pub open spec fn cam_du(c: Camera) -> Vec3 {
    v_div(cam_viewport_u(c), c.image_info.image_width as int * FX_ONE as int)
}

/// The per-pixel vertical step.
pub open spec fn cam_dv(c: Camera) -> Vec3 {
    v_div(cam_viewport_v(c), c.image_info.image_height as int * FX_ONE as int)
}

/// The viewport's upper-left corner.
pub open spec fn cam_vul(c: Camera) -> Vec3 {
    v_sub(
        v_sub(
            v_sub(c.look_from, v_scale(cam_w(c), c.focus_dist as int)),
            v_div(cam_viewport_u(c), 2 * FX_ONE as int),
        ),
        v_div(cam_viewport_v(c), 2 * FX_ONE as int),
    )
}

/// The center of the upper-left pixel.
pub open spec fn cam_pixel00(c: Camera) -> Vec3 {
    v_add(cam_vul(c), v_scale(v_add(cam_du(c), cam_dv(c)), 32768))
}

/// The defocus-disk radius: the focus distance times the tangent of half
/// the defocus angle.
pub open spec fn cam_defocus_radius(c: Camera) -> int {
    fxm(c.focus_dist as int, cam_tan(c.defocus_angle as int))
}

/// The defocus disk's horizontal basis vector.
pub open spec fn cam_disk_u(c: Camera) -> Vec3 {
    v_scale(cam_u(c), cam_defocus_radius(c))
}

/// The defocus disk's vertical basis vector.
pub open spec fn cam_disk_v(c: Camera) -> Vec3 {
    v_scale(cam_v(c), cam_defocus_radius(c))
}

/// The camera with its derived fields recomputed from the configuration.
pub open spec fn cam_derive(c: Camera) -> Camera {
    Camera {
        u: cam_u(c),
        v: cam_v(c),
        w: cam_w(c),
        pixel00_loc: cam_pixel00(c),
        pixel_delta_u: cam_du(c),
        pixel_delta_v: cam_dv(c),
        defocus_disk_u: cam_disk_u(c),
        defocus_disk_v: cam_disk_v(c),
        ..c
    }
}

/// One pixel-step axis keeps every sample within the checked excursion.
pub open spec fn axis_ok(n: int, d: int) -> bool {
    fxm(n * FX_ONE as int + FX_ONE as int, if d < 0 {
        -d
    } else {
        d
    }) <= 0x80_0000
}

/// What a successful initialization checks: configuration ranges, a
/// non-degenerate view direction and up vector, tangents that stay finite,
/// and derived state small enough that every sampled ray direction stays
/// within the direction cap.
pub open spec fn cam_valid(c: Camera) -> bool {
    &&& 1 <= c.image_info.image_width <= 16384
    &&& 1 <= c.image_info.image_height <= 16384
    &&& 1 <= c.samples_per_pixel <= 65536
    &&& v_in_box(c.look_from, P_LIM as int)
    &&& v_in_box(c.look_at, P_LIM as int)
    &&& v_in_box(c.vup, 2 * FX_ONE as int)
    &&& 1 <= c.fov <= 170 * FX_ONE
    &&& 0 <= c.defocus_angle <= 170 * FX_ONE
    &&& 1 <= c.focus_dist <= 0x80_0000
    &&& v_len_sq(cam_ray_dir(c)) >= 1
    &&& v_len_sq(cam_cross_up(c)) >= 1
    &&& bh_sin_spec(ssub(90 * FX_ONE as int, cam_half(c.fov as int))) >= 1
    &&& bh_sin_spec(ssub(90 * FX_ONE as int, cam_half(c.defocus_angle as int))) >= 1
    &&& v_in_box(v_sub(cam_pixel00(c), c.look_from), 0x100_0000)
    &&& axis_ok(c.image_info.image_width as int, cam_du(c).0 as int)
    &&& axis_ok(c.image_info.image_width as int, cam_du(c).1 as int)
    &&& axis_ok(c.image_info.image_width as int, cam_du(c).2 as int)
    &&& axis_ok(c.image_info.image_height as int, cam_dv(c).0 as int)
    &&& axis_ok(c.image_info.image_height as int, cam_dv(c).1 as int)
    &&& axis_ok(c.image_info.image_height as int, cam_dv(c).2 as int)
    &&& v_in_box(cam_disk_u(c), 0x80_0000)
    &&& v_in_box(cam_disk_v(c), 0x80_0000)
}

/// What ray generation relies on: the bounds among the checks that keep a
/// sampled ray direction within the direction cap.
pub open spec fn cam_wf(c: Camera) -> bool {
    &&& 1 <= c.image_info.image_width <= 16384
    &&& 1 <= c.image_info.image_height <= 16384
    &&& 1 <= c.samples_per_pixel <= 65536
    &&& v_in_box(c.look_from, P_LIM as int)
    &&& v_in_box(v_sub(c.pixel00_loc, c.look_from), 0x100_0000)
    &&& axis_ok(c.image_info.image_width as int, c.pixel_delta_u.0 as int)
    &&& axis_ok(c.image_info.image_width as int, c.pixel_delta_u.1 as int)
    &&& axis_ok(c.image_info.image_width as int, c.pixel_delta_u.2 as int)
    &&& axis_ok(c.image_info.image_height as int, c.pixel_delta_v.0 as int)
    &&& axis_ok(c.image_info.image_height as int, c.pixel_delta_v.1 as int)
    &&& axis_ok(c.image_info.image_height as int, c.pixel_delta_v.2 as int)
    &&& v_in_box(c.defocus_disk_u, 0x80_0000)
    &&& v_in_box(c.defocus_disk_v, 0x80_0000)
}

/// A builder over the camera configuration, with the defaults the renderer
/// assumes; derived state is computed once by `build`.
#[derive(Clone, Copy, Debug)]
pub struct CameraBuilder {
    pub max_depth: u32,
    pub image_info: ImageInfo,
    pub samples_per_pixel: u32,
    pub fov: i64,
    pub look_from: Point3,
    pub look_at: Point3,
    pub vup: Vec3,
    pub defocus_angle: i64,
    pub focus_dist: i64,
}

impl CameraBuilder {
    /// Start from the required fields, with every option at its default.
    pub fn new(image_info: &ImageInfo, look_from: &Point3, look_at: &Point3) -> (r: Self)
        ensures
            r.image_info == *image_info,
            r.look_from == *look_from,
            r.look_at == *look_at,
            r.max_depth == 8,
            r.samples_per_pixel == 64,
            r.fov == 90 * FX_ONE,
            r.vup == Vec3(0, FX_ONE, 0),
            r.defocus_angle == 0,
            r.focus_dist == 10 * FX_ONE,
    {
        Self {
            max_depth: 8,
            image_info: *image_info,
            samples_per_pixel: 64,
            fov: 90 * FX_ONE,
            look_from: *look_from,
            look_at: *look_at,
            vup: Vec3(0, FX_ONE, 0),
            defocus_angle: 0,
            focus_dist: 10 * FX_ONE,
        }
    }

    /// Set the maximum recursion depth.
    pub fn max_depth(self, v: u32) -> (r: Self)
        ensures
            r == (CameraBuilder { max_depth: v, ..self }),
    {
        CameraBuilder { max_depth: v, ..self }
    }

    /// Set the samples per pixel.
    pub fn samples_per_pixel(self, v: u32) -> (r: Self)
        ensures
            r == (CameraBuilder { samples_per_pixel: v, ..self }),
    {
        CameraBuilder { samples_per_pixel: v, ..self }
    }

    /// Set the vertical field of view in fixed-point degrees.
    pub fn fov(self, v: i64) -> (r: Self)
        ensures
            r == (CameraBuilder { fov: v, ..self }),
    {
        CameraBuilder { fov: v, ..self }
    }

    /// Set the up vector.
    pub fn vup(self, v: Vec3) -> (r: Self)
        ensures
            r == (CameraBuilder { vup: v, ..self }),
    {
        CameraBuilder { vup: v, ..self }
    }

    /// Set the defocus angle in fixed-point degrees.
    pub fn defocus_angle(self, v: i64) -> (r: Self)
        ensures
            r == (CameraBuilder { defocus_angle: v, ..self }),
    {
        CameraBuilder { defocus_angle: v, ..self }
    }

    /// Set the focus distance.
    pub fn focus_dist(self, v: i64) -> (r: Self)
        ensures
            r == (CameraBuilder { focus_dist: v, ..self }),
    {
        CameraBuilder { focus_dist: v, ..self }
    }

    /// The camera this builder configures, before derivation.
    pub open spec fn as_camera(self) -> Camera {
        Camera {
            max_depth: self.max_depth,
            image_info: self.image_info,
            samples_per_pixel: self.samples_per_pixel,
            fov: self.fov,
            look_from: self.look_from,
            look_at: self.look_at,
            vup: self.vup,
            defocus_angle: self.defocus_angle,
            focus_dist: self.focus_dist,
            u: Vec3(0, 0, 0),
            v: Vec3(0, 0, 0),
            w: Vec3(0, 0, 0),
            pixel00_loc: Vec3(0, 0, 0),
            pixel_delta_u: Vec3(0, 0, 0),
            pixel_delta_v: Vec3(0, 0, 0),
            defocus_disk_u: Vec3(0, 0, 0),
            defocus_disk_v: Vec3(0, 0, 0),
        }
    }

    /// Derive a camera, refusing an invalid configuration.
    pub fn build(&self) -> (res: Option<Camera>)
        ensures
            res.is_some() <==> cam_valid(self.as_camera()),
            res matches Some(c) ==> c == cam_derive(self.as_camera()) && cam_wf(c),
    {
        let mut cam = Camera {
            max_depth: self.max_depth,
            image_info: self.image_info,
            samples_per_pixel: self.samples_per_pixel,
            fov: self.fov,
            look_from: self.look_from,
            look_at: self.look_at,
            vup: self.vup,
            defocus_angle: self.defocus_angle,
            focus_dist: self.focus_dist,
            u: Vec3(0, 0, 0),
            v: Vec3(0, 0, 0),
            w: Vec3(0, 0, 0),
            pixel00_loc: Vec3(0, 0, 0),
            pixel_delta_u: Vec3(0, 0, 0),
            pixel_delta_v: Vec3(0, 0, 0),
            defocus_disk_u: Vec3(0, 0, 0),
            defocus_disk_v: Vec3(0, 0, 0),
        };
        let ok = cam.initialize(self.image_info, self.samples_per_pixel, self.fov);
        if ok {
            Some(cam)
        } else {
            None
        }
    }
}

impl Camera {
    /// Recompute the derived frustum state for the given image, sample count
    /// and field of view, refusing an invalid configuration and leaving the
    /// camera untouched in that case.
    pub fn initialize(&mut self, image_info: ImageInfo, samples_per_pixel: u32, fov: i64) -> (ok:
        bool)
        ensures
            ok == cam_valid(cam_with(*old(self), image_info, samples_per_pixel, fov)),
            ok ==> *final(self) == cam_derive(cam_with(*old(self), image_info, samples_per_pixel, fov)),
            ok ==> cam_wf(*final(self)),
            !ok ==> *final(self) == *old(self),
    {
        let s: i64 = FX_ONE;
        if !(1 <= image_info.image_width && image_info.image_width <= 16384 && 1
            <= image_info.image_height && image_info.image_height <= 16384) {
            return false;
        }
        if !(1 <= samples_per_pixel && samples_per_pixel <= 65536) {
            return false;
        }
        if !(in_box_check(&self.look_from, P_LIM) && in_box_check(&self.look_at, P_LIM)
            && in_box_check(&self.vup, 2 * s)) {
            return false;
        }
        if !(1 <= fov && fov <= 170 * s && 0 <= self.defocus_angle && self.defocus_angle <= 170 * s
            && 1 <= self.focus_dist && self.focus_dist <= 0x80_0000) {
            return false;
        }
        let ray_dir = self.look_from.sub(self.look_at);
        if ray_dir.length_squared() < 1 {
            return false;
        }
        let w = unit_vector(&ray_dir);
        let cross_up = cross(&self.vup, &w);
        if cross_up.length_squared() < 1 {
            return false;
        }
        let u = unit_vector(&cross_up);
        let v = cross(&w, &u);
        let half = ((fov as u64) / 2) as i64;
        let cos_fov = bh_sin(90 * s - half);
        if cos_fov < 1 {
            return false;
        }
        let dhalf = ((self.defocus_angle as u64) / 2) as i64;
        let cos_def = bh_sin(90 * s - dhalf);
        if cos_def < 1 {
            return false;
        }
        let tan_fov = fx_div(bh_sin(half), cos_fov);
        let tan_def = fx_div(bh_sin(dhalf), cos_def);
        let m = fx_mul(tan_fov, self.focus_dist);
        let viewport_height = sat_add(m, m);
        let aspect = image_info.aspect_ratio();
        let viewport_width = fx_mul(viewport_height, aspect);
        let viewport_u = u.mul(viewport_width);
        let viewport_v = v.neg().mul(viewport_height);
        let wfx: i64 = (image_info.image_width as i64) * 65536;
        let hfx: i64 = (image_info.image_height as i64) * 65536;
        let pixel_delta_u = viewport_u.div(wfx);
        let pixel_delta_v = viewport_v.div(hfx);
        let viewport_upper_left = self.look_from.sub(w.mul(self.focus_dist)).sub(
            viewport_u.div(2 * s),
        ).sub(viewport_v.div(2 * s));
        let pixel00_loc = viewport_upper_left.add(pixel_delta_u.add(pixel_delta_v).mul(32768));
        let defocus_radius = fx_mul(self.focus_dist, tan_def);
        let defocus_disk_u = u.mul(defocus_radius);
        let defocus_disk_v = v.mul(defocus_radius);
        if !in_box_check(&pixel00_loc.sub(self.look_from), 0x100_0000) {
            return false;
        }
        if !(axis_check(image_info.image_width, pixel_delta_u.0) && axis_check(
            image_info.image_width,
            pixel_delta_u.1,
        ) && axis_check(image_info.image_width, pixel_delta_u.2)) {
            return false;
        }
        if !(axis_check(image_info.image_height, pixel_delta_v.0) && axis_check(
            image_info.image_height,
            pixel_delta_v.1,
        ) && axis_check(image_info.image_height, pixel_delta_v.2)) {
            return false;
        }
        if !(in_box_check(&defocus_disk_u, 0x80_0000) && in_box_check(&defocus_disk_v, 0x80_0000))
        {
            return false;
        }
        self.image_info = image_info;
        self.samples_per_pixel = samples_per_pixel;
        self.fov = fov;
        self.u = u;
        self.v = v;
        self.w = w;
        self.pixel00_loc = pixel00_loc;
        self.pixel_delta_u = pixel_delta_u;
        self.pixel_delta_v = pixel_delta_v;
        self.defocus_disk_u = defocus_disk_u;
        self.defocus_disk_v = defocus_disk_v;
        true
    }
}

/// Runtime check that every component lies in `[-m, m]`.
pub fn in_box_check(v: &Vec3, m: i64) -> (b: bool)
    requires
        m >= 0,
    ensures
        b == v_in_box(*v, m as int),
{
    -m <= v.0 && v.0 <= m && -m <= v.1 && v.1 <= m && -m <= v.2 && v.2 <= m
}

/// Runtime check of one pixel-step axis against the sampling excursion cap.
pub fn axis_check(n: u32, d: i64) -> (b: bool)
    requires
        n <= 16384,
    ensures
        b == axis_ok(n as int, d as int),
{
    if d == i64::MIN {
        proof {
            let si = FX_ONE as int;
            let nn = n as int * si + si;
            assert(nn * (-(d as int)) >= si * 0x8000_0000_0000_0000) by (nonlinear_arith)
                requires
                    nn >= si,
                    si == 65536,
                    d as int == -0x8000_0000_0000_0000,
            ;
            vstd::arithmetic::div_mod::lemma_div_is_ordered(
                si * 0x8000_0000_0000_0000,
                nn * (-(d as int)),
                si,
            );
            vstd::arithmetic::div_mod::lemma_div_by_multiple(0x8000_0000_0000_0000, si);
            assert(si * 0x8000_0000_0000_0000 == 0x8000_0000_0000_0000 * si) by (nonlinear_arith);
            vstd::arithmetic::div_mod::lemma_div_pos_is_pos(nn * (-(d as int)), si);
        }
        return false;
    }
    let a: i64 = if d < 0 {
        -d
    } else {
        d
    };
    fx_mul((n as i64) * 65536 + 65536, a) <= 0x80_0000
}

/// The blend parameter of the sky gradient: half of the vertical component
/// plus one, clamped into `[0, 1]` (a guard that only rounding can trigger).
pub open spec fn sky_blend(y: int) -> int {
    let t = sadd(y, FX_ONE as int);
    if t < 0 {
        0
    } else if t > 2 * FX_ONE as int {
        FX_ONE as int
    } else {
        tdiv(t, 2)
    }
}

/// The background gradient for a given vertical blend input: white at the
/// bottom, sky blue at the top.
pub open spec fn gradient_spec(y: int) -> Vec3 {
    let a = sky_blend(y);
    v_add(
        v_scale(Vec3(65536, 65536, 65536), ssub(FX_ONE as int, a)),
        v_scale(Vec3(32768, 45875, 65536), a),
    )
}

/// The background color of a ray that hits nothing: the gradient over the
/// normalized direction's vertical component.
pub open spec fn background_spec(r: Ray) -> Vec3 {
    gradient_spec(v_unit(r.dir).1 as int)
}

/// Multiplying a `[0, 1]` blend against the gradient endpoints keeps every
/// channel in `[0, 1]`, with the white channel scaling exactly.
proof fn lemma_gradient_bounds(a: int)
    requires
        0 <= a <= FX_ONE as int,
    ensures
        gradient_chan_value(a, 32768) == ssub(FX_ONE as int, a) + fxm(32768, a),
        gradient_chan_value(a, 45875) == ssub(FX_ONE as int, a) + fxm(45875, a),
        gradient_chan_value(a, 65536) == FX_ONE as int,
        0 <= gradient_chan_value(a, 32768) <= FX_ONE as int,
        0 <= gradient_chan_value(a, 45875) <= FX_ONE as int,
{
    let si = FX_ONE as int;
    lemma_fxm_one(si - a);
    assert(si * (si - a) == (si - a) * si) by (nonlinear_arith);
    lemma_fxm_one(a);
    assert(si * a == a * si) by (nonlinear_arith);
    lemma_fxm_unit(32768, a);
    lemma_fxm_unit(45875, a);
    assert(fxm(si, si - a) == si - a);
    assert(fxm(si, a) == a);
}

/// One channel of the gradient for blend `a` against sky channel `c`.
pub open spec fn gradient_chan_value(a: int, c: int) -> int {
    sadd(fxm(FX_ONE as int, ssub(FX_ONE as int, a)), fxm(c, a))
}

/// The gradient is monotone in the vertical component: a higher direction
/// blends further toward sky blue, so the red and green channels never grow
/// and the blue channel stays constant.
pub proof fn lemma_gradient_monotone(y1: int, y2: int)
    requires
        y1 <= y2,
    ensures
        gradient_spec(y2).0 <= gradient_spec(y1).0,
        gradient_spec(y2).1 <= gradient_spec(y1).1,
        gradient_spec(y2).2 == gradient_spec(y1).2,
{
    let si = FX_ONE as int;
    let a1 = sky_blend(y1);
    let a2 = sky_blend(y2);
    lemma_sky_blend_range(y1);
    lemma_sky_blend_range(y2);
    assert(a1 <= a2) by {
        let t1 = sadd(y1, si);
        let t2 = sadd(y2, si);
        assert(t1 <= t2);
        if t1 < 0 {
        } else if t2 > 2 * si {
        } else {
            vstd::arithmetic::div_mod::lemma_div_is_ordered(t1, t2, 2);
        }
    }
    lemma_gradient_bounds(a1);
    lemma_gradient_bounds(a2);
    lemma_gradient_chan_antitone(a1, a2, 32768);
    lemma_gradient_chan_antitone(a1, a2, 45875);
}

/// One gradient channel with a sky value at most one never grows with the
/// blend.
proof fn lemma_gradient_chan_antitone(a1: int, a2: int, c: int)
    requires
        0 <= a1 <= a2 <= FX_ONE as int,
        0 <= c <= FX_ONE as int,
    ensures
        gradient_chan_value(a2, c) <= gradient_chan_value(a1, c),
{
    let si = FX_ONE as int;
    lemma_gradient_bounds_chan(a1, c);
    lemma_gradient_bounds_chan(a2, c);
    assert(c * a2 <= c * a1 + si * (a2 - a1)) by (nonlinear_arith)
        requires
            a1 <= a2,
            0 <= c <= si,
    ;
    assert(c * a1 >= 0) by (nonlinear_arith)
        requires
            0 <= c,
            0 <= a1,
    ;
    vstd::arithmetic::div_mod::lemma_hoist_over_denominator(c * a1, a2 - a1, si as nat);
    vstd::arithmetic::div_mod::lemma_div_is_ordered(c * a2, c * a1 + (a2 - a1) * si, si);
    assert(si * (a2 - a1) == (a2 - a1) * si) by (nonlinear_arith);
    vstd::arithmetic::div_mod::lemma_div_pos_is_pos(c * a1, si);
    vstd::arithmetic::div_mod::lemma_div_pos_is_pos(c * a2, si);
}

/// One gradient channel, unfolded to the plain sum when the blend and the
/// sky value are both in `[0, 1]`.
proof fn lemma_gradient_bounds_chan(a: int, c: int)
    requires
        0 <= a <= FX_ONE as int,
        0 <= c <= FX_ONE as int,
    ensures
        gradient_chan_value(a, c) == ssub(FX_ONE as int, a) + tdiv(c * a, FX_ONE as int),
        0 <= tdiv(c * a, FX_ONE as int) <= a,
{
    let si = FX_ONE as int;
    lemma_fxm_one(si - a);
    assert(si * (si - a) == (si - a) * si) by (nonlinear_arith);
    lemma_fxm_unit(c, a);
}

/// The sky blend always lies in `[0, 1]`.
proof fn lemma_sky_blend_range(y: int)
    ensures
        0 <= sky_blend(y) <= FX_ONE as int,
{
    let si = FX_ONE as int;
    let t = sadd(y, si);
    if t < 0 {
    } else if t > 2 * si {
    } else {
        vstd::arithmetic::div_mod::lemma_div_pos_is_pos(t, 2);
        vstd::arithmetic::div_mod::lemma_div_is_ordered(t, 2 * si, 2);
        vstd::arithmetic::div_mod::lemma_div_by_multiple(si, 2);
        assert(si * 2 == 2 * si) by (nonlinear_arith);
    }
}

/// The background gradient of a ray that strikes nothing, with every channel
/// in `[0, 1]`.
fn background(r: &Ray) -> (c: Vec3)
    ensures
        c == background_spec(*r),
        0 <= c.0 <= FX_ONE && 0 <= c.1 <= FX_ONE && 0 <= c.2 <= FX_ONE,
{
    let unit_direction = unit_vector(r.direction());
    let t = sat_add(unit_direction.1, FX_ONE);
    let a: i64 = if t < 0 {
        0
    } else if t > 2 * FX_ONE {
        FX_ONE
    } else {
        proof {
            vstd::arithmetic::div_mod::lemma_div_pos_is_pos(t as int, 2);
            vstd::arithmetic::div_mod::lemma_div_is_ordered(t as int, 2 * FX_ONE as int, 2);
            vstd::arithmetic::div_mod::lemma_div_by_multiple(FX_ONE as int, 2);
            assert(FX_ONE as int * 2 == 2 * FX_ONE as int) by (nonlinear_arith);
        }
        ((t as u64) / 2) as i64
    };
    proof {
        lemma_gradient_bounds(a as int);
    }
    Vec3(FX_ONE, FX_ONE, FX_ONE).mul(sat_sub(FX_ONE, a)).add(Vec3(32768, 45875, 65536).mul(a))
}

impl Camera {
    /// A random sub-pixel jitter, uniform on `[-1/2, 1/2)` in each axis.
    fn sample_square() -> (r: Vec3)
        ensures
            -32768 <= r.0 <= 32767,
            -32768 <= r.1 <= 32767,
            r.2 == 0,
    {
        Vec3(rand_unit() - 32768, rand_unit() - 32768, 0)
    }

    /// A random ray origin on the defocus disk, never far from the eye.
    fn defocus_disk_sample(&self) -> (r: Point3)
        requires
            cam_wf(*self),
        ensures
            v_in_box(v_sub(r, self.look_from), 0x100_0000),
            exists|p: Vec3| #[trigger] disk_sample_ok(p) && r == disk_origin(*self, p),
    {
        let p = random_int_unit_disk();
        let e1 = self.defocus_disk_u.mul(p.0);
        let e2 = self.defocus_disk_v.mul(p.1);
        proof {
            lemma_fxm_bound(self.defocus_disk_u.0 as int, p.0 as int, 0x80_0000, FX_ONE as int);
            lemma_fxm_bound(self.defocus_disk_u.1 as int, p.0 as int, 0x80_0000, FX_ONE as int);
            lemma_fxm_bound(self.defocus_disk_u.2 as int, p.0 as int, 0x80_0000, FX_ONE as int);
            lemma_fxm_bound(self.defocus_disk_v.0 as int, p.1 as int, 0x80_0000, FX_ONE as int);
            lemma_fxm_bound(self.defocus_disk_v.1 as int, p.1 as int, 0x80_0000, FX_ONE as int);
            lemma_fxm_bound(self.defocus_disk_v.2 as int, p.1 as int, 0x80_0000, FX_ONE as int);
        }
        let r = self.look_from.add(e1).add(e2);
        proof {
            assert(disk_sample_ok(p) && r == disk_origin(*self, p));
        }
        r
    }

    /// One sampled primary ray through pixel `(i, j)`: jitter the pixel
    /// center, project through the pixel grid, and originate at the eye or
    /// on the defocus disk.
    pub fn get_ray(&self, i: u32, j: u32) -> (r: Ray)
        requires
            cam_wf(*self),
            i < self.image_info.image_width,
            j < self.image_info.image_height,
        ensures
            camera_ray_ok(*self, i as int, j as int, r),
            ray_wf(r),
            self.defocus_angle <= 0 ==> r.orig == self.look_from,
    {
        let offset = Camera::sample_square();
        let a: i64 = (i as i64) * 65536 + offset.0;
        let b: i64 = (j as i64) * 65536 + offset.1;
        let e1 = self.pixel_delta_u.mul(a);
        let e2 = self.pixel_delta_v.mul(b);
        proof {
            let si = FX_ONE as int;
            let wn = self.image_info.image_width as int * si + si;
            let hn = self.image_info.image_height as int * si + si;
            lemma_get_ray_step(self.pixel_delta_u.0 as int, a as int, wn);
            lemma_get_ray_step(self.pixel_delta_u.1 as int, a as int, wn);
            lemma_get_ray_step(self.pixel_delta_u.2 as int, a as int, wn);
            lemma_get_ray_step(self.pixel_delta_v.0 as int, b as int, hn);
            lemma_get_ray_step(self.pixel_delta_v.1 as int, b as int, hn);
            lemma_get_ray_step(self.pixel_delta_v.2 as int, b as int, hn);
        }
        let pixel_sample = self.pixel00_loc.add(e1).add(e2);
        let ray_origin = if self.defocus_angle > 0 {
            self.defocus_disk_sample()
        } else {
            self.look_from
        };
        let ray_direction = pixel_sample.sub(ray_origin);
        let r = Ray::new(&ray_origin, &ray_direction);
        proof {
            assert(pixel_sample == pixel_sample_spec(
                *self,
                i as int,
                j as int,
                offset.0 as int,
                offset.1 as int,
            ));
            assert(r.dir == v_sub(
                pixel_sample_spec(*self, i as int, j as int, offset.0 as int, offset.1 as int),
                r.orig,
            ));
        }
        r
    }
}

/// One pixel-grid excursion stays within the checked cap: the step times any
/// in-range jittered coordinate is small.
proof fn lemma_get_ray_step(d: int, a: int, n: int)
    requires
        -n <= a <= n,
        0 <= n,
        fxm(n, if d < 0 {
            -d
        } else {
            d
        }) <= 0x80_0000,
    ensures
        -0x80_0000 <= fxm(d, a) <= 0x80_0000,
{
    let si = FX_ONE as int;
    let ad = if d < 0 {
        -d
    } else {
        d
    };
    lemma_fxm_bound(d, a, ad, n);
    assert(ad * n == n * ad) by (nonlinear_arith);
    assert(ad * n >= 0) by (nonlinear_arith)
        requires
            ad >= 0,
            n >= 0,
    ;
    lemma_tdiv_bounds(ad * n, ad * n, si);
}

/// The world point a sample through pixel `(i, j)` aims at, for sub-pixel
/// jitters `ox` and `oy`: the pixel grid's origin offset by the jittered
/// pixel coordinates.
pub open spec fn pixel_sample_spec(c: Camera, i: int, j: int, ox: int, oy: int) -> Vec3 {
    v_add(
        v_add(c.pixel00_loc, v_scale(c.pixel_delta_u, i * 65536 + ox)),
        v_scale(c.pixel_delta_v, j * 65536 + oy),
    )
}

/// The eye point a defocused sample starts from: the camera position offset
/// through the defocus-disk basis by a disk sample.
pub open spec fn disk_origin(c: Camera, p: Vec3) -> Vec3 {
    v_add(v_add(c.look_from, v_scale(c.defocus_disk_u, p.0 as int)), v_scale(c.defocus_disk_v, p.1 as int))
}

/// What ray generation can produce for pixel `(i, j)`: a capped ray whose
/// origin is the eye (or a defocus-disk point when a defocus angle is set)
/// and whose direction runs from that origin to a jittered sample point of
/// the pixel cell.
pub open spec fn camera_ray_ok(c: Camera, i: int, j: int, r: Ray) -> bool {
    &&& ray_wf(r)
    &&& (c.defocus_angle <= 0 ==> r.orig == c.look_from)
    &&& (c.defocus_angle > 0 ==> exists|p: Vec3|
        #[trigger] disk_sample_ok(p) && r.orig == disk_origin(c, p))
    &&& exists|ox: int, oy: int|
        -32768 <= ox <= 32767 && -32768 <= oy <= 32767 && r.dir == v_sub(
            #[trigger] pixel_sample_spec(c, i, j, ox, oy),
            r.orig,
        )
}

/// What the radiance integrator can return for a ray: a unit color that is
/// black at exhausted depth, the background gradient on a miss, and on a hit
/// either black (absorption or a later exhausted path) or an attenuation the
/// hit material admits multiplied into some unit color.
pub open spec fn radiance_ok(r: Ray, objs: Seq<Sphere>, depth: int, c: Vec3) -> bool {
    &&& color_wf(c)
    &&& (depth <= 0 ==> c == Vec3(0i64, 0i64, 0i64))
    &&& ((depth > 0 && list_hit_spec(objs, r, T_MIN_HIT as int, T_LIMIT as int) is None) ==> c
        == background_spec(r))
    &&& (depth > 0 ==> (list_hit_spec(objs, r, T_MIN_HIT as int, T_LIMIT as int) matches Some(rec)
        ==> (c == Vec3(0i64, 0i64, 0i64) || exists|att: Vec3, rest: Vec3|
        c == #[trigger] v_mul_elem(att, rest) && scatter_attenuation_ok(rec.mat, att) && color_wf(
            rest,
        ))))
}

/// What one pixel sample can be: a radiance value of some generated ray.
pub open spec fn sample_ok(c: Camera, objs: Seq<Sphere>, i: int, j: int, s: Vec3) -> bool {
    exists|r: Ray| #[trigger] camera_ray_ok(c, i, j, r) && radiance_ok(r, objs, c.max_depth as int, s)
}

/// The red-channel sum of a sample sequence.
pub open spec fn sum_r(s: Seq<Vec3>) -> int
    decreases s.len(),
{
    if s.len() == 0 {
        0
    } else {
        sum_r(s.drop_last()) + s.last().0 as int
    }
}

/// The green-channel sum of a sample sequence.
pub open spec fn sum_g(s: Seq<Vec3>) -> int
    decreases s.len(),
{
    if s.len() == 0 {
        0
    } else {
        sum_g(s.drop_last()) + s.last().1 as int
    }
}

/// The blue-channel sum of a sample sequence.
pub open spec fn sum_b(s: Seq<Vec3>) -> int
    decreases s.len(),
{
    if s.len() == 0 {
        0
    } else {
        sum_b(s.drop_last()) + s.last().2 as int
    }
}

/// What one rendered pixel can be: the per-channel truncated average of
/// `samples_per_pixel` sample radiances, each from a generated ray.
pub open spec fn pixel_ok(c: Camera, objs: Seq<Sphere>, i: int, j: int, px: Vec3) -> bool {
    exists|samples: Seq<Vec3>|
        {
            &&& samples.len() == c.samples_per_pixel
            &&& (forall|m: int|
                0 <= m < samples.len() ==> sample_ok(c, objs, i, j, #[trigger] samples[m]))
            &&& px.0 as int == (#[trigger] sum_r(samples)) / c.samples_per_pixel as int
            &&& px.1 as int == sum_g(samples) / c.samples_per_pixel as int
            &&& px.2 as int == sum_b(samples) / c.samples_per_pixel as int
        }
}

impl Camera {
    /// The recursive radiance estimate of one ray: black when the depth is
    /// exhausted, the sky gradient on a miss, and the scattered radiance
    /// attenuated by the surface color on a hit (black when the material
    /// absorbs). Every channel stays in `[0, 1]`.
    pub fn ray_color(r: &Ray, depth: u32, world: &HittableList) -> (c: Vec3)
        requires
            ray_wf(*r),
            list_wf(world.objects@),
        ensures
            radiance_ok(*r, world.objects@, depth as int, c),
            color_wf(c),
            depth == 0 ==> c == Vec3(0, 0, 0),
            depth > 0 && list_hit_spec(world.objects@, *r, T_MIN_HIT as int, T_LIMIT as int)
                is None ==> c == background_spec(*r),
        decreases depth,
    {
        if depth == 0 {
            return Vec3(0, 0, 0);
        }
        match world.hit(r, T_MIN_HIT, T_LIMIT) {
            Some(rec) => {
                match rec.mat.scatter(r, &rec) {
                    Some((attenuation, scattered)) => {
                        let rc = Camera::ray_color(&scattered, depth - 1, world);
                        proof {
                            lemma_fxm_unit(attenuation.0 as int, rc.0 as int);
                            lemma_fxm_unit(attenuation.1 as int, rc.1 as int);
                            lemma_fxm_unit(attenuation.2 as int, rc.2 as int);
                        }
                        let c = attenuation.mul_elem(rc);
                        proof {
                            assert(c == v_mul_elem(attenuation, rc) && scatter_attenuation_ok(
                                rec.mat,
                                attenuation,
                            ) && color_wf(rc));
                        }
                        c
                    },
                    None => Vec3(0, 0, 0),
                }
            },
            None => background(r),
        }
    }

    /// Render one image row: for each pixel, average the radiance of
    /// `samples_per_pixel` independently jittered rays.
    #[verifier::rlimit(50)]
    pub fn render_row(&self, world: &HittableList, j: u32) -> (row: Vec<Vec3>)
        requires
            cam_wf(*self),
            list_wf(world.objects@),
            j < self.image_info.image_height,
        ensures
            row@.len() == self.image_info.image_width as int,
            forall|k: int| 0 <= k < row@.len() ==> color_wf(#[trigger] row@[k]),
            forall|k: int|
                0 <= k < row@.len() ==> pixel_ok(
                    *self,
                    world.objects@,
                    k,
                    j as int,
                    #[trigger] row@[k],
                ),
    {
        let w = self.image_info.image_width;
        let spp = self.samples_per_pixel;
        let mut row: Vec<Vec3> = Vec::new();
        let mut i: u32 = 0;
        while i < w
            invariant
                cam_wf(*self),
                list_wf(world.objects@),
                j < self.image_info.image_height,
                w == self.image_info.image_width,
                spp == self.samples_per_pixel,
                i <= w,
                row@.len() == i as int,
                forall|k: int| 0 <= k < row@.len() ==> color_wf(#[trigger] row@[k]),
                forall|k: int|
                    0 <= k < row@.len() ==> pixel_ok(
                        *self,
                        world.objects@,
                        k,
                        j as int,
                        #[trigger] row@[k],
                    ),
            decreases w - i,
        {
            let mut pixel_color = Vec3(0, 0, 0);
            let ghost mut samples: Seq<Vec3> = Seq::empty();
            let mut s: u32 = 0;
            while s < spp
                invariant
                    cam_wf(*self),
                    list_wf(world.objects@),
                    i < self.image_info.image_width,
                    j < self.image_info.image_height,
                    spp == self.samples_per_pixel,
                    s <= spp,
                    samples.len() == s as int,
                    forall|m: int|
                        0 <= m < samples.len() ==> sample_ok(
                            *self,
                            world.objects@,
                            i as int,
                            j as int,
                            #[trigger] samples[m],
                        ),
                    pixel_color.0 as int == sum_r(samples),
                    pixel_color.1 as int == sum_g(samples),
                    pixel_color.2 as int == sum_b(samples),
                    0 <= pixel_color.0 <= s as int * FX_ONE as int,
                    0 <= pixel_color.1 <= s as int * FX_ONE as int,
                    0 <= pixel_color.2 <= s as int * FX_ONE as int,
                decreases spp - s,
            {
                let ray = self.get_ray(i, j);
                let sample = Camera::ray_color(&ray, self.max_depth, world);
                proof {
                    assert((s as int + 1) * FX_ONE as int == s as int * FX_ONE as int
                        + FX_ONE as int) by (nonlinear_arith);
                    assert(s as int * FX_ONE as int <= 65536 * 65536) by (nonlinear_arith)
                        requires
                            0 <= s <= 65536,
                    ;
                    assert(camera_ray_ok(*self, i as int, j as int, ray) && radiance_ok(
                        ray,
                        world.objects@,
                        self.max_depth as int,
                        sample,
                    ));
                    assert(sample_ok(*self, world.objects@, i as int, j as int, sample));
                }
                pixel_color = pixel_color.add(sample);
                proof {
                    let prev = samples;
                    samples = samples.push(sample);
                    assert(samples.drop_last() =~= prev);
                    assert(samples.last() == sample);
                }
                s = s + 1;
            }
            let avg = Vec3(
                avg_channel(pixel_color.0, spp),
                avg_channel(pixel_color.1, spp),
                avg_channel(pixel_color.2, spp),
            );
            proof {
                lemma_avg_in_unit(pixel_color.0 as int, spp as int);
                lemma_avg_in_unit(pixel_color.1 as int, spp as int);
                lemma_avg_in_unit(pixel_color.2 as int, spp as int);
                assert(pixel_ok(*self, world.objects@, i as int, j as int, avg)) by {
                    assert(avg.0 as int == sum_r(samples) / self.samples_per_pixel as int);
                    assert(avg.1 as int == sum_g(samples) / self.samples_per_pixel as int);
                    assert(avg.2 as int == sum_b(samples) / self.samples_per_pixel as int);
                }
            }
            row.push(avg);
            i = i + 1;
        }
        row
    }

    /// Render the whole image sequentially, row-major: the concatenation of
    /// every row in order.
    pub fn render(&self, world: &HittableList) -> (img: Vec<Vec3>)
        requires
            cam_wf(*self),
            list_wf(world.objects@),
        ensures
            img@.len() == self.image_info.image_height as int * self.image_info.image_width as int,
            forall|k: int| 0 <= k < img@.len() ==> color_wf(#[trigger] img@[k]),
            forall|k: int|
                0 <= k < img@.len() ==> pixel_ok(
                    *self,
                    world.objects@,
                    k % self.image_info.image_width as int,
                    k / self.image_info.image_width as int,
                    #[trigger] img@[k],
                ),
    {
        let h = self.image_info.image_height;
        let w = self.image_info.image_width;
        let mut img: Vec<Vec3> = Vec::new();
        let mut j: u32 = 0;
        while j < h
            invariant
                cam_wf(*self),
                list_wf(world.objects@),
                h == self.image_info.image_height,
                w == self.image_info.image_width,
                j <= h,
                img@.len() == j as int * w as int,
                forall|k: int| 0 <= k < img@.len() ==> color_wf(#[trigger] img@[k]),
                forall|k: int|
                    0 <= k < img@.len() ==> pixel_ok(
                        *self,
                        world.objects@,
                        k % w as int,
                        k / w as int,
                        #[trigger] img@[k],
                    ),
            decreases h - j,
        {
            let ghost before = img@;
            let mut row = self.render_row(world, j);
            let ghost the_row = row@;
            img.append(&mut row);
            proof {
                assert((j as int + 1) * w as int == j as int * w as int + w as int)
                    by (nonlinear_arith);
                assert forall|k: int| 0 <= k < img@.len() implies pixel_ok(
                    *self,
                    world.objects@,
                    k % w as int,
                    k / w as int,
                    #[trigger] img@[k],
                ) by {
                    if k < before.len() {
                        assert(img@[k] == before[k]);
                    } else {
                        let kk = k - before.len();
                        assert(img@[k] == the_row[kk]);
                        vstd::arithmetic::div_mod::lemma_fundamental_div_mod_converse(
                            k,
                            w as int,
                            j as int,
                            kk,
                        );
                        assert(pixel_ok(*self, world.objects@, kk, j as int, the_row[kk]));
                    }
                }
            }
            j = j + 1;
        }
        img
    }
}

/// One averaged channel: the sample sum divided by the sample count.
fn avg_channel(sum: i64, n: u32) -> (r: i64)
    requires
        0 <= sum,
        1 <= n,
    ensures
        r as int == sum as int / n as int,
{
    ((sum as u64) / (n as u64)) as i64
}

/// An average of per-sample unit channels is a unit channel.
proof fn lemma_avg_in_unit(sum: int, n: int)
    requires
        0 <= sum <= n * FX_ONE as int,
        1 <= n,
    ensures
        0 <= sum / n <= FX_ONE as int,
{
    vstd::arithmetic::div_mod::lemma_div_pos_is_pos(sum, n);
    vstd::arithmetic::div_mod::lemma_div_is_ordered(sum, n * FX_ONE as int, n);
    vstd::arithmetic::div_mod::lemma_div_by_multiple(FX_ONE as int, n);
    assert(FX_ONE as int * n == n * FX_ONE as int) by (nonlinear_arith);
}

} // verus!

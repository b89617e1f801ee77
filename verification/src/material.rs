//! Surface materials: diffuse, metallic and refractive scattering.

use crate::fx::{
    fx_div, fx_mul, fx_sqrt, fxd, fxm, fxsqrt, lemma_fxm_bound, sadd, sat_add, sat_neg, sat_sub,
    sneg, ssub, tdiv, FX_ONE,
};
use crate::hittable::{rec_wf, HitRecord, N_LIM};
use crate::ray::{ray_wf, Ray, DIR_LIM};
use crate::rng::rand_unit;
use crate::vec3::{
    dot, lemma_dot_bound, random_unit_vector, reflect, reflect_spec, refract, refract_spec,
    unit_sample_ok, unit_vector, v_add, v_dot, v_in_box, v_len_sq, v_neg, v_scale, v_sub, v_unit,
    Vec3,
};
use vstd::prelude::*;

verus! {

/// A color whose channels lie in `[0, 1]`.
pub open spec fn color_wf(c: Vec3) -> bool {
    &&& 0 <= c.0 <= FX_ONE as int
    &&& 0 <= c.1 <= FX_ONE as int
    &&& 0 <= c.2 <= FX_ONE as int
}

/// Diffuse reflection: scatters into a random direction near the normal and
/// attenuates by a fixed albedo.
#[derive(Clone, Copy, Debug, PartialEq)]
pub struct Lambertian {
    pub albedo: Vec3,
}

/// Specular reflection, optionally perturbed by a fuzz factor in `[0, 1]`.
#[derive(Clone, Copy, Debug, PartialEq)]
pub struct Metal {
    pub albedo: Vec3,
    pub fuzz: Option<i64>,
}

/// Refraction through a dielectric with the given relative refractive index,
/// tinting by an albedo when a refracted ray enters through a front face.
#[derive(Clone, Copy, Debug, PartialEq)]
pub struct Dielectric {
    pub refractive_index: i64,
    pub albedo: Vec3,
}

/// The attenuation a material's scatter may report: the albedo for diffuse
/// and metallic surfaces; for a dielectric, full transmission (white) or the
/// albedo.
pub open spec fn scatter_attenuation_ok(m: Material, att: Vec3) -> bool {
    match m {
        Material::Lambertian(l) => att == l.albedo,
        Material::Metal(mm) => att == mm.albedo,
        Material::Dielectric(d) => att == Vec3(65536i64, 65536i64, 65536i64) || att == d.albedo,
    }
}

/// The closed set of materials a surface can carry.
#[derive(Clone, Copy, Debug, PartialEq)]
pub enum Material {
    Lambertian(Lambertian),
    Metal(Metal),
    Dielectric(Dielectric),
}

impl Lambertian {
    /// A valid diffuse material has a color-valued albedo.
    pub open spec fn wf(&self) -> bool {
        color_wf(self.albedo)
    }
}

impl Metal {
    /// A valid metal has a color-valued albedo (the fuzz factor is clamped
    /// when used).
    pub open spec fn wf(&self) -> bool {
        color_wf(self.albedo)
    }
}

impl Dielectric {
    /// A valid dielectric has a color-valued albedo and a relative
    /// refractive index between one eighth and eight — a fixed-point
    /// precision guard: outside that range the inverted ratio or the
    /// refraction arithmetic would lose all significant digits, and physical
    /// media lie well within it.
    pub open spec fn wf(&self) -> bool {
        &&& color_wf(self.albedo)
        &&& 8192 <= self.refractive_index <= 524288
    }
}

impl Material {
    /// Validity of whichever material this is.
    pub open spec fn wf(&self) -> bool {
        match *self {
            Material::Lambertian(m) => m.wf(),
            Material::Metal(m) => m.wf(),
            Material::Dielectric(m) => m.wf(),
        }
    }

    /// Runtime check of this material's validity.
    pub fn is_wf(&self) -> (b: bool)
        ensures
            b == self.wf(),
    {
        match self {
            Material::Lambertian(m) => color_wf_check(&m.albedo),
            Material::Metal(m) => color_wf_check(&m.albedo),
            Material::Dielectric(m) => color_wf_check(&m.albedo) && 8192 <= m.refractive_index
                && m.refractive_index <= 524288,
        }
    }

    /// Scatter the incoming ray at the recorded surface point with whichever
    /// material this is.
    pub fn scatter(&self, r_in: &Ray, rec: &HitRecord) -> (res: Option<(Vec3, Ray)>)
        requires
            self.wf(),
        ensures
            res matches Some(pair) ==> color_wf(pair.0) && pair.1.orig == rec.p && ((ray_wf(*r_in)
                && rec_wf(*rec)) ==> ray_wf(pair.1)),
            res matches Some(pair) ==> scatter_attenuation_ok(*self, pair.0),
            self matches Material::Lambertian(_) ==> res.is_some(),
            self matches Material::Dielectric(_) ==> res.is_some(),
    {
        match self {
            Material::Lambertian(m) => m.scatter(r_in, rec),
            Material::Metal(m) => m.scatter(r_in, rec),
            Material::Dielectric(m) => m.scatter(r_in, rec),
        }
    }
}

impl Default for Lambertian {
    /// The default diffuse material is black.
    fn default() -> (r: Self)
        ensures
            r.albedo == Vec3(0, 0, 0),
    {
        Self { albedo: Vec3(0, 0, 0) }
    }
}

impl Lambertian {
    /// Diffuse scatter: the normal plus a random unit vector (or the normal
    /// alone when that sum degenerates), attenuated by the albedo. Never
    /// signals absorption.
    pub fn scatter(&self, r_in: &Ray, rec: &HitRecord) -> (res: Option<(Vec3, Ray)>)
        ensures
            res.is_some(),
            res matches Some(pair) ==> pair.0 == self.albedo && pair.1.orig == rec.p,
            res matches Some(pair) ==> exists|u: Vec3|
                #[trigger] unit_sample_ok(u) && pair.1.dir == (if v_add(rec.normal, u) == Vec3(
                    0i64,
                    0i64,
                    0i64,
                ) {
                    rec.normal
                } else {
                    v_add(rec.normal, u)
                }),
            res matches Some(pair) ==> (rec_wf(*rec) ==> ray_wf(pair.1)),
    {
        let _ = r_in;
        let u = random_unit_vector();
        let mut scatter_direction = rec.normal.add(u);
        if scatter_direction.near_zero() {
            scatter_direction = rec.normal;
        }
        let scattered = Ray::new(&rec.p, &scatter_direction);
        proof {
            assert(unit_sample_ok(u) && scattered.dir == (if v_add(rec.normal, u) == Vec3(
                0i64,
                0i64,
                0i64,
            ) {
                rec.normal
            } else {
                v_add(rec.normal, u)
            }));
        }
        Some((self.albedo, scattered))
    }
}

impl Default for Metal {
    /// The default metal is mid-gray without fuzz.
    fn default() -> (r: Self)
        ensures
            r.albedo == Vec3(32768, 32768, 32768),
            r.fuzz.is_none(),
    {
        Self { albedo: Vec3(32768, 32768, 32768), fuzz: None }
    }
}

impl Metal {
    /// Accept or absorb a candidate scattered direction: absorption is
    /// signalled exactly when the candidate does not leave the surface, that
    /// is, when its dot product with the stored normal is at most zero.
    pub fn scatter_with(&self, direction: Vec3, rec: &HitRecord) -> (res: Option<(Vec3, Ray)>)
        ensures
            res.is_none() <==> v_dot(direction, rec.normal) <= 0,
            res matches Some(pair) ==> pair.0 == self.albedo && pair.1.orig == rec.p
                && pair.1.dir == direction,
    {
        let scattered = Ray::new(&rec.p, &direction);
        if dot(scattered.direction(), &rec.normal) > 0 {
            Some((self.albedo, scattered))
        } else {
            None
        }
    }

    /// Specular scatter: the mirrored incoming direction, perturbed by the
    /// clamped fuzz factor times a random unit vector; absorbed if and only
    /// if the perturbed reflection points into the surface.
    pub fn scatter(&self, r_in: &Ray, rec: &HitRecord) -> (res: Option<(Vec3, Ray)>)
        ensures
            res matches Some(pair) ==> pair.0 == self.albedo && pair.1.orig == rec.p && v_dot(
                pair.1.dir,
                rec.normal,
            ) > 0,
            exists|u: Vec3|
                #[trigger] unit_sample_ok(u) && (res.is_none() <==> v_dot(
                    metal_candidate(*self, *r_in, *rec, u),
                    rec.normal,
                ) <= 0) && (res matches Some(pair) ==> pair.1.dir == metal_candidate(
                    *self,
                    *r_in,
                    *rec,
                    u,
                )),
            self.fuzz.is_none() ==> (res.is_none() <==> v_dot(
                v_unit(reflect_spec(r_in.dir, rec.normal)),
                rec.normal,
            ) <= 0),
            self.fuzz.is_none() ==> (res matches Some(pair) ==> pair.1.dir == v_unit(
                reflect_spec(r_in.dir, rec.normal),
            )),
            res matches Some(pair) ==> ((ray_wf(*r_in) && rec_wf(*rec)) ==> ray_wf(pair.1)),
    {
        let mirrored = reflect(r_in.direction(), &rec.normal);
        proof {
            if ray_wf(*r_in) && rec_wf(*rec) {
                lemma_reflect_box(r_in.dir, rec.normal);
            }
        }
        let unit_mirrored = unit_vector(&mirrored);
        match self.fuzz {
            Some(f) => {
                let fc: i64 = if f < 0 {
                    0
                } else if f > FX_ONE {
                    FX_ONE
                } else {
                    f
                };
                let u = random_unit_vector();
                proof {
                    lemma_fxm_bound(u.0 as int, fc as int, 2 * FX_ONE as int, FX_ONE as int);
                    lemma_fxm_bound(u.1 as int, fc as int, 2 * FX_ONE as int, FX_ONE as int);
                    lemma_fxm_bound(u.2 as int, fc as int, 2 * FX_ONE as int, FX_ONE as int);
                }
                let reflected = unit_mirrored.add(u.mul(fc));
                let res = self.scatter_with(reflected, rec);
                proof {
                    assert(unit_sample_ok(u) && reflected == metal_candidate(
                        *self,
                        *r_in,
                        *rec,
                        u,
                    ));
                }
                res
            },
            None => {
                let reflected = unit_mirrored.add(Vec3(0, 0, 0));
                let res = self.scatter_with(reflected, rec);
                proof {
                    lemma_unit_sample_exists();
                    let u0 = choose|u: Vec3| unit_sample_ok(u);
                    assert(v_scale(u0, metal_fuzz_factor(self.fuzz)) == Vec3(0i64, 0i64, 0i64))
                        by {
                        assert(u0.0 as int * 0 == 0) by (nonlinear_arith);
                        assert(u0.1 as int * 0 == 0) by (nonlinear_arith);
                        assert(u0.2 as int * 0 == 0) by (nonlinear_arith);
                    }
                    assert(unit_sample_ok(u0) && reflected == metal_candidate(
                        *self,
                        *r_in,
                        *rec,
                        u0,
                    ));
                }
                res
            },
        }
    }
}

/// The fuzz factor a metal applies: the configured value clamped into
/// `[0, 1]`, or zero when none is configured.
pub open spec fn metal_fuzz_factor(fuzz: Option<i64>) -> int {
    match fuzz {
        Option::None => 0,
        Option::Some(f) => if f < 0 {
            0
        } else if f > FX_ONE {
            FX_ONE as int
        } else {
            f as int
        },
    }
}

/// The candidate direction a metal tests: the normalized mirror reflection
/// plus the fuzz factor times the drawn unit vector.
pub open spec fn metal_candidate(m: Metal, r_in: Ray, rec: HitRecord, u: Vec3) -> Vec3 {
    v_add(v_unit(reflect_spec(r_in.dir, rec.normal)), v_scale(u, metal_fuzz_factor(m.fuzz)))
}

/// The unit sampler's outcome set is inhabited (by the normalized half-unit
/// `x` vector, for one).
proof fn lemma_unit_sample_exists()
    ensures
        exists|u: Vec3| #[trigger] unit_sample_ok(u),
{
    let p = Vec3(32768i64, 0i64, 0i64);
    assert(crate::vec3::sphere_sample_ok(p)) by {
        assert(v_len_sq(p) == 16384);
    }
    assert(unit_sample_ok(v_unit(p)));
}

/// A mirror reflection of a capped direction about a capped normal stays
/// within a moderate box.
pub proof fn lemma_reflect_box(v: Vec3, n: Vec3)
    requires
        v_in_box(v, DIR_LIM as int),
        v_in_box(n, N_LIM as int),
    ensures
        v_in_box(reflect_spec(v, n), 0x2_0000_0000),
{
    lemma_dot_bound(v, n, DIR_LIM as int, N_LIM as int);
    let d = v_dot(v, n);
    assert(-0x4000_0000 <= d <= 0x4000_0000);
    let t = sadd(d, d);
    lemma_fxm_bound(n.0 as int, t, N_LIM as int, 0x8000_0000);
    lemma_fxm_bound(n.1 as int, t, N_LIM as int, 0x8000_0000);
    lemma_fxm_bound(n.2 as int, t, N_LIM as int, 0x8000_0000);
}

impl Default for Dielectric {
    /// The default dielectric is index-matched glass-less vacuum with a
    /// white albedo.
    fn default() -> (r: Self)
        ensures
            r.refractive_index == FX_ONE,
            r.albedo == Vec3(FX_ONE, FX_ONE, FX_ONE),
    {
        Self { refractive_index: FX_ONE, albedo: Vec3(FX_ONE, FX_ONE, FX_ONE) }
    }
}

/// The exact Schlick reflectance: `r0 + (1 - r0) * (1 - cos)^5` with
/// `r0 = ((1 - ri) / (1 + ri))^2`.
pub open spec fn reflectance_spec(cosine: int, ri: int) -> int {
    let r0x = fxd(ssub(FX_ONE as int, ri), sadd(FX_ONE as int, ri));
    let r0 = fxm(r0x, r0x);
    let omc = ssub(FX_ONE as int, cosine);
    let p2 = fxm(omc, omc);
    let p5 = fxm(fxm(p2, p2), omc);
    sadd(r0, fxm(ssub(FX_ONE as int, r0), p5))
}

/// The relative index ratio a dielectric applies: inverted when entering
/// through a front face, as-is when exiting.
pub open spec fn diel_ratio(d: Dielectric, front_face: bool) -> int {
    if front_face {
        fxd(FX_ONE as int, d.refractive_index as int)
    } else {
        d.refractive_index as int
    }
}

/// The attenuation a refracted ray carries: the albedo when entering
/// through a front face (tint on entry), full transmission otherwise.
pub open spec fn diel_tint(d: Dielectric, front_face: bool) -> Vec3 {
    if front_face {
        d.albedo
    } else {
        Vec3(65536i64, 65536i64, 65536i64)
    }
}

/// The cosine between the reversed unit incoming direction and the normal.
pub open spec fn diel_cos(u: Vec3, n: Vec3) -> int {
    sneg(v_dot(u, n))
}

/// Whether total internal reflection forces a mirror reflection: the ratio
/// times the sine of the incidence angle exceeds one.
pub open spec fn diel_must_reflect(d: Dielectric, r_in: Ray, rec: HitRecord) -> bool {
    let u = v_unit(r_in.dir);
    let cos = diel_cos(u, rec.normal);
    let k = ssub(FX_ONE as int, fxm(cos, cos));
    let sin = fxsqrt(
        if k < 0 {
            0
        } else {
            k
        },
    );
    fxm(diel_ratio(d, rec.front_face), sin) > FX_ONE as int
}

impl Dielectric {
    /// The exact Schlick polynomial approximation to the Fresnel reflectance.
    pub fn reflectance(cosine: i64, refractive_index: i64) -> (r: i64)
        requires
            refractive_index >= 0,
        ensures
            r as int == reflectance_spec(cosine as int, refractive_index as int),
    {
        let r0x = fx_div(sat_sub(FX_ONE, refractive_index), sat_add(FX_ONE, refractive_index));
        let r0 = fx_mul(r0x, r0x);
        let omc = sat_sub(FX_ONE, cosine);
        let p2 = fx_mul(omc, omc);
        let p5 = fx_mul(fx_mul(p2, p2), omc);
        sat_add(r0, fx_mul(sat_sub(FX_ONE, r0), p5))
    }

    /// Refractive scatter: reflect under total internal reflection or a
    /// Schlick coin flip, else refract; tint by the albedo only when a
    /// refracted ray enters through a front face. Never signals absorption.
    pub fn scatter(&self, r_in: &Ray, rec: &HitRecord) -> (res: Option<(Vec3, Ray)>)
        requires
            self.wf(),
        ensures
            res.is_some(),
            res matches Some(pair) ==> pair.1.orig == rec.p && (pair.0 == Vec3(
                FX_ONE,
                FX_ONE,
                FX_ONE,
            ) || pair.0 == self.albedo) && color_wf(pair.0),
            res matches Some(pair) ==> ((pair.0 == Vec3(FX_ONE, FX_ONE, FX_ONE) && pair.1.dir
                == reflect_spec(v_unit(r_in.dir), rec.normal)) || (pair.0 == diel_tint(
                *self,
                rec.front_face,
            ) && pair.1.dir == refract_spec(
                v_unit(r_in.dir),
                rec.normal,
                diel_ratio(*self, rec.front_face),
            ))),
            res matches Some(pair) ==> ((!diel_must_reflect(*self, *r_in, *rec)
                && reflectance_spec(
                diel_cos(v_unit(r_in.dir), rec.normal),
                diel_ratio(*self, rec.front_face),
            ) <= 0) ==> pair.0 == diel_tint(*self, rec.front_face) && pair.1.dir == refract_spec(
                v_unit(r_in.dir),
                rec.normal,
                diel_ratio(*self, rec.front_face),
            )),
            res matches Some(pair) ==> (diel_must_reflect(*self, *r_in, *rec) ==> pair.1.dir
                == reflect_spec(v_unit(r_in.dir), rec.normal) && pair.0 == Vec3(
                FX_ONE,
                FX_ONE,
                FX_ONE,
            )),
            res matches Some(pair) ==> ((ray_wf(*r_in) && rec_wf(*rec)) ==> ray_wf(pair.1)),
    {
        let ri: i64 = if rec.front_face {
            fx_div(FX_ONE, self.refractive_index)
        } else {
            self.refractive_index
        };
        proof {
            lemma_ratio_range(self.refractive_index as int);
        }
        let unit_direction = unit_vector(r_in.direction());
        let cos_theta = sat_neg(dot(&unit_direction, &rec.normal));
        let k = sat_sub(FX_ONE, fx_mul(cos_theta, cos_theta));
        let sin_theta = fx_sqrt(
            if k < 0 {
                0
            } else {
                k
            },
        );
        let cannot_refract = fx_mul(ri, sin_theta) > FX_ONE;
        proof {
            if ray_wf(*r_in) && rec_wf(*rec) {
                lemma_reflect_unit_box(unit_direction, rec.normal);
                lemma_refract_box(unit_direction, rec.normal, ri as int);
            }
        }
        let white = Vec3(FX_ONE, FX_ONE, FX_ONE);
        let (attenuation, direction): (Vec3, Vec3) = if cannot_refract || Dielectric::reflectance(
            cos_theta,
            ri,
        ) > rand_unit() {
            (white, reflect(&unit_direction, &rec.normal))
        } else {
            let a = if rec.front_face {
                self.albedo
            } else {
                white
            };
            (a, refract(&unit_direction, &rec.normal, ri))
        };
        let scattered = Ray::new(&rec.p, &direction);
        Some((attenuation, scattered))
    }
}

/// A well-formed refractive index and its inverse both lie within `[1, 8]`
/// fixed-point units of one.
proof fn lemma_ratio_range(ri: int)
    requires
        8192 <= ri <= 524288,
    ensures
        1 <= fxd(FX_ONE as int, ri) <= 524288,
{
    let s = FX_ONE as int;
    assert(tdiv(s * s, ri) == s * s / ri);
    vstd::arithmetic::div_mod::lemma_div_is_ordered(s * s, s * s, 1);
    vstd::arithmetic::div_mod::lemma_div_is_ordered_by_denominator(s * s, 8192, ri);
    vstd::arithmetic::div_mod::lemma_div_pos_is_pos(s * s, ri);
    assert(s * s / 8192 == 524288);
    assert(s * s / ri >= 1) by {
        vstd::arithmetic::div_mod::lemma_div_is_ordered_by_denominator(s * s, ri, 524288);
        assert(s * s / 524288 == 8192);
    }
}

/// A refraction of a near-unit direction about a capped normal with a
/// moderate index ratio stays within the direction cap.
pub proof fn lemma_refract_box(u: Vec3, n: Vec3, ri: int)
    requires
        v_in_box(u, 2 * FX_ONE as int),
        v_in_box(n, N_LIM as int),
        0 <= ri <= 524288,
    ensures
        v_in_box(refract_spec(u, n, ri), DIR_LIM as int),
{
    let s = FX_ONE as int;
    let cos = v_dot(v_neg(u), n);
    lemma_dot_bound(v_neg(u), n, 131072, 131072);
    assert(-786432 <= cos <= 786432);
    lemma_fxm_bound(n.0 as int, cos, 131072, 786432);
    lemma_fxm_bound(n.1 as int, cos, 131072, 786432);
    lemma_fxm_bound(n.2 as int, cos, 131072, 786432);
    let inner = v_add(u, v_scale(n, cos));
    assert(v_in_box(inner, 1703936));
    lemma_fxm_bound(inner.0 as int, ri, 1703936, 524288);
    lemma_fxm_bound(inner.1 as int, ri, 1703936, 524288);
    lemma_fxm_bound(inner.2 as int, ri, 1703936, 524288);
    let perp = v_scale(inner, ri);
    assert(v_in_box(perp, 13631488));
    lemma_dot_bound(perp, perp, 13631488, 13631488);
    let q = v_len_sq(perp);
    assert(-8506048512 <= q <= 8506048512);
    let k = ssub(s, q);
    let kabs = if k < 0 {
        sneg(k)
    } else {
        k
    };
    assert(0 <= kabs <= 8506114048);
    crate::fx::lemma_isqrt_monotone((kabs * s) as nat, (8506114048 * s) as nat)
    ;
    assert((kabs * s) as nat <= (8506114048 * s) as nat) by (nonlinear_arith)
        requires
            0 <= kabs <= 8506114048,
            s == 65536,
    ;
    assert(23610520nat * 23610520nat <= (8506114048 * s) as nat && (23610520nat + 1) * (
    23610520nat + 1) > (8506114048 * s) as nat) by (nonlinear_arith)
        requires
            s == 65536,
    ;
    crate::fx::lemma_isqrt_unique((8506114048 * s) as nat, 23610520nat);
    let sq = fxsqrt(kabs);
    assert(0 <= sq <= 23610520);
    lemma_fxm_bound(n.0 as int, sneg(sq), 131072, 23610520);
    lemma_fxm_bound(n.1 as int, sneg(sq), 131072, 23610520);
    lemma_fxm_bound(n.2 as int, sneg(sq), 131072, 23610520);
    let par = v_scale(n, sneg(sq));
    assert(v_in_box(par, 47221040));
    assert(v_in_box(v_add(perp, par), DIR_LIM as int));
}

/// A mirror reflection of a near-unit direction about a capped normal stays
/// within the direction cap.
pub proof fn lemma_reflect_unit_box(u: Vec3, n: Vec3)
    requires
        v_in_box(u, 2 * FX_ONE as int),
        v_in_box(n, N_LIM as int),
    ensures
        v_in_box(reflect_spec(u, n), DIR_LIM as int),
{
    lemma_dot_bound(u, n, 131072, 131072);
    let d = v_dot(u, n);
    assert(-786432 <= d <= 786432);
    let t = sadd(d, d);
    lemma_fxm_bound(n.0 as int, t, 131072, 1572864);
    lemma_fxm_bound(n.1 as int, t, 131072, 1572864);
    lemma_fxm_bound(n.2 as int, t, 131072, 1572864);
}

/// Runtime check that a color's channels lie in `[0, 1]`.
pub fn color_wf_check(c: &Vec3) -> (b: bool)
    ensures
        b == color_wf(*c),
{
    0 <= c.0 && c.0 <= FX_ONE && 0 <= c.1 && c.1 <= FX_ONE && 0 <= c.2 && c.2 <= FX_ONE
}

} // verus!

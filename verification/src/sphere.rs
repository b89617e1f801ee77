//! Spheres and their closed-form ray intersection.

use crate::fx::{
    fx_div, fx_mul, fx_sqrt, fxd, fxm, fxsqrt, lemma_fxm_bound, lemma_isqrt_monotone,
    lemma_isqrt_unique, lemma_tdiv_bounds, sadd, sat_add, sat_sub, ssub, tdiv, FX_ONE,
};
use crate::hittable::{face_normal, rec_wf, HitRecord, N_LIM};
use crate::material::Material;
use crate::ray::{ray_at, Ray};
use crate::vec3::{
    clamp_vec, dot, lemma_dot_bound, v_add, v_clamp, v_div, v_dot, v_in_box, v_len_sq, v_sub,
    Point3, Vec3,
};
use vstd::prelude::*;

verus! {

/// Componentwise cap on scene positions (sphere centers and camera points).
pub const P_LIM: i64 = 0x400_0000;

/// Cap on sphere radii.
pub const R_LIM: i64 = 0x400_0000;

/// A sphere: a center, a radius and a surface material.
#[derive(Clone, Copy, Debug, PartialEq)]
pub struct Sphere {
    pub center: Point3,
    pub radius: i64,
    pub mat: Material,
}

/// A valid sphere sits within the scene box, has a nonnegative capped radius
/// and carries a valid material.
pub open spec fn sphere_wf(s: Sphere) -> bool {
    &&& v_in_box(s.center, P_LIM as int)
    &&& 0 <= s.radius <= R_LIM
    &&& s.mat.wf()
}

/// The vector from the ray origin to the sphere center.
pub open spec fn sphere_oc(s: Sphere, r: Ray) -> Vec3 {
    v_sub(s.center, r.orig)
}

/// The quadratic's leading coefficient: the squared direction length.
pub open spec fn sphere_a(s: Sphere, r: Ray) -> int {
    v_len_sq(r.dir)
}

/// The quadratic's half linear coefficient.
pub open spec fn sphere_h(s: Sphere, r: Ray) -> int {
    v_dot(r.dir, sphere_oc(s, r))
}

/// The quadratic's constant coefficient.
pub open spec fn sphere_c(s: Sphere, r: Ray) -> int {
    ssub(v_len_sq(sphere_oc(s, r)), fxm(s.radius as int, s.radius as int))
}

/// The quadratic's discriminant (in its halved form `h^2 - a c`).
pub open spec fn sphere_disc(s: Sphere, r: Ray) -> int {
    ssub(fxm(sphere_h(s, r), sphere_h(s, r)), fxm(sphere_a(s, r), sphere_c(s, r)))
}

/// The near root `(h - sqrt(d)) / a`.
pub open spec fn sphere_root1(s: Sphere, r: Ray) -> int {
    fxd(ssub(sphere_h(s, r), fxsqrt(sphere_disc(s, r))), sphere_a(s, r))
}

/// The far root `(h + sqrt(d)) / a`.
pub open spec fn sphere_root2(s: Sphere, r: Ray) -> int {
    fxd(sadd(sphere_h(s, r), fxsqrt(sphere_disc(s, r))), sphere_a(s, r))
}

/// The accepted ray parameter: the near root when it lies in the interval,
/// else the far root when it does, else none. Degenerate spheres (radius
/// under one step) and degenerate directions (squared length under one step)
/// are never hit.
pub open spec fn sphere_hit_t(s: Sphere, r: Ray, t_min: int, t_max: int) -> Option<int> {
    if s.radius < 1 || sphere_a(s, r) < 1 {
        None
    } else if sphere_disc(s, r) < 0 {
        None
    } else {
        let r1 = sphere_root1(s, r);
        if t_min <= r1 && r1 <= t_max {
            Some(r1)
        } else {
            let r2 = sphere_root2(s, r);
            if t_min <= r2 && r2 <= t_max {
                Some(r2)
            } else {
                None
            }
        }
    }
}

/// The outward normal at the accepted hit point, clamped into the normal box
/// (a guard that never triggers for a point near the sphere's surface).
pub open spec fn sphere_outward(s: Sphere, r: Ray, t: int) -> Vec3 {
    v_clamp(v_div(v_sub(ray_at(r, t), s.center), s.radius as int), N_LIM as int)
}

/// The full intersection result: the record produced for the accepted
/// parameter, with the front-face-corrected normal and the sphere's material.
pub open spec fn sphere_hit_spec(s: Sphere, r: Ray, t_min: int, t_max: int) -> Option<HitRecord> {
    match sphere_hit_t(s, r, t_min, t_max) {
        None => None,
        Some(t) => {
            let outward = sphere_outward(s, r, t);
            Some(
                HitRecord {
                    p: ray_at(r, t),
                    t: t as i64,
                    normal: face_normal(r, outward),
                    mat: s.mat,
                    front_face: v_dot(r.dir, outward) < 0,
                },
            )
        },
    }
}

impl Sphere {
    /// Build a sphere, refusing an out-of-box center, a negative or oversized
    /// radius, or an invalid material (fatal configuration errors).
    pub fn new(center: &Point3, radius: i64, mat: Material) -> (res: Option<Sphere>)
        ensures
            res.is_some() <==> (v_in_box(*center, P_LIM as int) && 0 <= radius <= R_LIM
                && mat.wf()),
            res matches Some(s) ==> s == (Sphere { center: *center, radius, mat }) && sphere_wf(s),
    {
        let center_ok = -P_LIM <= center.0 && center.0 <= P_LIM && -P_LIM <= center.1 && center.1
            <= P_LIM && -P_LIM <= center.2 && center.2 <= P_LIM;
        if center_ok && 0 <= radius && radius <= R_LIM && mat.is_wf() {
            Some(Sphere { center: *center, radius, mat })
        } else {
            None
        }
    }

    /// Closed-form ray-sphere intersection within the closed parameter
    /// interval `[t_min, t_max]`: solve the halved quadratic, prefer the near
    /// root, and report the surface record at the accepted parameter.
    pub fn hit(&self, r: &Ray, t_min: i64, t_max: i64) -> (res: Option<HitRecord>)
        ensures
            res == sphere_hit_spec(*self, *r, t_min as int, t_max as int),
            res matches Some(rec) ==> rec_wf(rec) && rec.mat == self.mat && t_min <= rec.t
                <= t_max,
    {
        if self.radius < 1 {
            return None;
        }
        let oc = self.center.sub(*r.origin());
        let a = r.direction().length_squared();
        if a < 1 {
            return None;
        }
        let h = dot(r.direction(), &oc);
        let c = sat_sub(oc.length_squared(), fx_mul(self.radius, self.radius));
        let discriminant = sat_sub(fx_mul(h, h), fx_mul(a, c));
        if discriminant < 0 {
            return None;
        }
        let sqrtd = fx_sqrt(discriminant);
        let mut root = fx_div(sat_sub(h, sqrtd), a);
        if !(t_min <= root && root <= t_max) {
            root = fx_div(sat_add(h, sqrtd), a);
            if !(t_min <= root && root <= t_max) {
                return None;
            }
        }
        let p = r.at(root);
        let outward_normal = clamp_vec(&p.sub(self.center).div(self.radius), N_LIM);
        let mut rec = HitRecord {
            p,
            t: root,
            normal: outward_normal,
            mat: self.mat,
            front_face: false,
        };
        rec.set_face_normal(r, &outward_normal);
        Some(rec)
    }
}

impl crate::hittable::Hittable for Sphere {
    /// A sphere's intersection is its closed-form quadratic solution.
    open spec fn hit_spec(&self, r: Ray, t_min: int, t_max: int) -> Option<HitRecord> {
        sphere_hit_spec(*self, r, t_min, t_max)
    }

    fn hit(&self, r: &Ray, t_min: i64, t_max: i64) -> (res: Option<HitRecord>) {
        Sphere::hit(self, r, t_min, t_max)
    }
}

/// The stored normal of any sphere intersection opposes the incoming ray:
/// its dot product with the ray direction is never positive.
pub proof fn lemma_sphere_hit_normal_opposes(s: Sphere, r: Ray, t_min: int, t_max: int, dd: int)
    requires
        v_in_box(r.dir, dd),
        0 <= dd <= i64::MAX as int,
        dd * (N_LIM as int) <= 0x1000_0000_0000_0000_0000,
    ensures
        sphere_hit_spec(s, r, t_min, t_max) matches Option::Some(rec) ==> v_dot(r.dir, rec.normal)
            <= 0,
{
    match sphere_hit_t(s, r, t_min, t_max) {
        Option::None => {
        },
        Option::Some(t) => {
            let outward = sphere_outward(s, r, t);
            assert(v_in_box(outward, N_LIM as int));
            crate::hittable::lemma_face_normal_opposes(r, outward, dd, N_LIM as int);
        },
    }
}

/// The sphere shifted by a vector.
pub open spec fn translate_sphere(s: Sphere, v: Vec3) -> Sphere {
    Sphere { center: v_add(s.center, v), ..s }
}

/// The ray with its origin shifted by a vector.
pub open spec fn translate_ray(r: Ray, v: Vec3) -> Ray {
    Ray { orig: v_add(r.orig, v), dir: r.dir }
}

/// Sphere intersection is invariant under translating the ray origin and the
/// sphere center by the same vector: the hit parameter, normal, facing flag
/// and material are unchanged, and the hit point shifts by that vector.
pub proof fn lemma_hit_translation_invariant(s: Sphere, r: Ray, v: Vec3, t_min: int, t_max: int)
    requires
        v_in_box(s.center, 0x200_0000),
        v_in_box(r.orig, 0x200_0000),
        v_in_box(v, 0x200_0000),
        v_in_box(r.dir, 0x10_0000),
        0 <= s.radius <= R_LIM,
        0 <= t_min <= t_max <= 0x4000_0000,
    ensures
        match (
            sphere_hit_spec(s, r, t_min, t_max),
            sphere_hit_spec(translate_sphere(s, v), translate_ray(r, v), t_min, t_max),
        ) {
            (Option::None, Option::None) => true,
            (Option::Some(a), Option::Some(b)) => b.t == a.t && b.normal == a.normal
                && b.front_face == a.front_face && b.mat == a.mat && b.p == v_add(a.p, v),
            _ => false,
        },
{
    let s2 = translate_sphere(s, v);
    let r2 = translate_ray(r, v);
    assert(sphere_oc(s2, r2) == sphere_oc(s, r));
    assert(sphere_a(s2, r2) == sphere_a(s, r));
    assert(sphere_h(s2, r2) == sphere_h(s, r));
    assert(sphere_c(s2, r2) == sphere_c(s, r));
    assert(sphere_disc(s2, r2) == sphere_disc(s, r));
    assert(sphere_root1(s2, r2) == sphere_root1(s, r));
    assert(sphere_root2(s2, r2) == sphere_root2(s, r));
    assert(sphere_hit_t(s2, r2, t_min, t_max) == sphere_hit_t(s, r, t_min, t_max));
    match sphere_hit_t(s, r, t_min, t_max) {
        Option::None => {
        },
        Option::Some(t) => {
            lemma_root_in_range(s, r, t, t_min, t_max);
            let bb: int = 0x4_0000_0000;
            assert(0x10_0000 * 0x4000_0000 == 0x4_0000_0000_0000) by (nonlinear_arith);
            assert(bb * 65536 == 0x4_0000_0000_0000) by (nonlinear_arith)
                requires
                    bb == 0x4_0000_0000,
            ;
            vstd::arithmetic::div_mod::lemma_div_by_multiple(bb, 65536);
            assert(tdiv(0x4_0000_0000_0000, FX_ONE as int) == bb);
            lemma_fxm_bound(r.dir.0 as int, t, 0x10_0000, 0x4000_0000);
            lemma_fxm_bound(r.dir.1 as int, t, 0x10_0000, 0x4000_0000);
            lemma_fxm_bound(r.dir.2 as int, t, 0x10_0000, 0x4000_0000);
            let e0 = fxm(r.dir.0 as int, t);
            let e1 = fxm(r.dir.1 as int, t);
            let e2 = fxm(r.dir.2 as int, t);
            assert(-bb <= e0 <= bb && -bb <= e1 <= bb && -bb <= e2 <= bb);
            assert(ray_at(r2, t).0 as int == r.orig.0 as int + v.0 as int + e0);
            assert(ray_at(r2, t).1 as int == r.orig.1 as int + v.1 as int + e1);
            assert(ray_at(r2, t).2 as int == r.orig.2 as int + v.2 as int + e2);
            assert(v_add(ray_at(r, t), v).0 as int == r.orig.0 as int + e0 + v.0 as int);
            assert(v_add(ray_at(r, t), v).1 as int == r.orig.1 as int + e1 + v.1 as int);
            assert(v_add(ray_at(r, t), v).2 as int == r.orig.2 as int + e2 + v.2 as int);
            assert(ray_at(r2, t) == v_add(ray_at(r, t), v));
            assert(v_sub(ray_at(r2, t), s2.center) == v_sub(ray_at(r, t), s.center));
            assert(sphere_outward(s2, r2, t) == sphere_outward(s, r, t));
        },
    }
}

/// An accepted hit parameter lies within the search interval.
proof fn lemma_root_in_range(s: Sphere, r: Ray, t: int, t_min: int, t_max: int)
    requires
        sphere_hit_t(s, r, t_min, t_max) == Option::Some(t),
    ensures
        t_min <= t <= t_max,
{
}

/// When the ray origin sits strictly inside the sphere (with at least one
/// squared-unit margin), the near root is never positive and the far root is
/// never negative, so any hit accepted over a positive interval comes from
/// the far root.
pub proof fn lemma_inside_origin_hits_far_root(s: Sphere, r: Ray, t_min: int, t_max: int)
    requires
        v_in_box(s.center, 0x200_0000),
        v_in_box(r.orig, 0x200_0000),
        v_in_box(r.dir, 0x10_0000),
        1 <= s.radius <= R_LIM,
        sphere_a(s, r) >= 1,
        sphere_c(s, r) <= -(FX_ONE as int),
        1 <= t_min <= t_max,
    ensures
        sphere_root1(s, r) <= 0,
        sphere_root2(s, r) >= 0,
        sphere_hit_t(s, r, t_min, t_max) matches Option::Some(t) ==> t == sphere_root2(s, r),
{
    let si = FX_ONE as int;
    let oc = sphere_oc(s, r);
    let a = sphere_a(s, r);
    let h = sphere_h(s, r);
    let c = sphere_c(s, r);
    assert(v_in_box(oc, 0x400_0000));
    lemma_dot_bound(r.dir, r.dir, 0x10_0000, 0x10_0000);
    lemma_dot_bound(r.dir, oc, 0x10_0000, 0x400_0000);
    assert(a <= 0x3000_0000);
    assert(-0x3_0000_0000 <= h <= 0x3_0000_0000);
    lemma_dot_bound(oc, oc, 0x400_0000, 0x400_0000);
    lemma_fxm_bound(s.radius as int, s.radius as int, 0x400_0000, 0x400_0000);
    assert(-0x40_0000_0000 <= c <= 0x40_0000_0000);
    lemma_fxm_bound(h, h, 0x3_0000_0000, 0x3_0000_0000);
    assert(h * h >= 0) by (nonlinear_arith);
    vstd::arithmetic::div_mod::lemma_div_pos_is_pos(h * h, si);
    let hh = fxm(h, h);
    assert(hh == tdiv(h * h, si) && hh >= 0);
    lemma_fxm_bound(a, c, 0x3000_0000, 0x40_0000_0000);
    assert(a * c <= -si) by (nonlinear_arith)
        requires
            a >= 1,
            c <= -si,
            si > 0,
    ;
    let ac = fxm(a, c);
    assert(ac == tdiv(a * c, si));
    assert(ac <= -1) by {
        assert(-(a * c) >= si);
        vstd::arithmetic::div_mod::lemma_div_is_ordered(si, -(a * c), si);
        vstd::arithmetic::div_mod::lemma_div_by_multiple(1, si);
    }
    let disc = sphere_disc(s, r);
    assert(disc == hh - ac) by {
        lemma_fxm_bound(h, h, 0x3_0000_0000, 0x3_0000_0000);
    }
    assert(disc >= hh + 1);
    let sd = fxsqrt(disc);
    assert(disc * si > h * h) by {
        vstd::arithmetic::div_mod::lemma_fundamental_div_mod(h * h, si);
        vstd::arithmetic::div_mod::lemma_mod_division_less_than_divisor(h * h, si);
        assert((hh + 1) * si == hh * si + si) by (nonlinear_arith);
        assert(disc * si >= (hh + 1) * si) by (nonlinear_arith)
            requires
                disc >= hh + 1,
                si > 0,
        ;
    }
    assert(sd >= 0);
    let habs = if h >= 0 {
        h
    } else {
        -h
    };
    assert(habs * habs == h * h) by (nonlinear_arith)
        requires
            habs == (if h >= 0 {
                h
            } else {
                -h
            }),
    ;
    assert((habs + 1) * (habs + 1) > habs * habs) by (nonlinear_arith)
        requires
            habs >= 0,
    ;
    lemma_isqrt_monotone((h * h) as nat, (disc * si) as nat);
    lemma_isqrt_unique((h * h) as nat, habs as nat);
    assert(sd >= habs);
    assert(sphere_root1(s, r) <= 0) by {
        assert(ssub(h, sd) <= 0);
        lemma_tdiv_bounds(ssub(h, sd) * si, -(ssub(h, sd) * si), a);
        assert(ssub(h, sd) * si <= 0) by (nonlinear_arith)
            requires
                ssub(h, sd) <= 0,
                si > 0,
        ;
    }
    assert(sphere_root2(s, r) >= 0) by {
        assert(sadd(h, sd) >= 0);
        lemma_tdiv_bounds(sadd(h, sd) * si, sadd(h, sd) * si, a);
        assert(sadd(h, sd) * si >= 0) by (nonlinear_arith)
            requires
                sadd(h, sd) >= 0,
                si > 0,
        ;
    }
}

/// Truncating division over a positive divisor is monotone in the dividend.
proof fn lemma_tdiv_monotone(x: int, y: int, b: int)
    requires
        b >= 1,
        x <= y,
    ensures
        tdiv(x, b) <= tdiv(y, b),
{
    if x >= 0 {
        vstd::arithmetic::div_mod::lemma_div_is_ordered(x, y, b);
    } else if y >= 0 {
        vstd::arithmetic::div_mod::lemma_div_pos_is_pos(-x, b);
        vstd::arithmetic::div_mod::lemma_div_pos_is_pos(y, b);
    } else {
        vstd::arithmetic::div_mod::lemma_div_is_ordered(-y, -x, b);
    }
}

/// The near root never exceeds the far root.
proof fn lemma_root_order(s: Sphere, r: Ray)
    requires
        sphere_a(s, r) >= 1,
        sphere_disc(s, r) >= 0,
    ensures
        sphere_root1(s, r) <= sphere_root2(s, r),
{
    let si = FX_ONE as int;
    let h = sphere_h(s, r);
    let sd = fxsqrt(sphere_disc(s, r));
    assert(sd >= 0);
    let x = ssub(h, sd);
    let y = sadd(h, sd);
    assert(x <= y);
    assert(x * si <= y * si) by (nonlinear_arith)
        requires
            x <= y,
            si > 0,
    ;
    lemma_tdiv_monotone(x * si, y * si, sphere_a(s, r));
}

/// Narrowing the upper end of the search interval never changes an accepted
/// parameter, it can only reject it: a hit accepted against the narrowed
/// interval is the hit against the full one, and a ray that misses against
/// the narrowed interval hits the full one only beyond the narrowed end.
pub proof fn lemma_sphere_interval_narrow(s: Sphere, r: Ray, t_min: int, cl: int, t_max: int)
    requires
        cl <= t_max,
    ensures
        sphere_hit_t(s, r, t_min, cl) matches Option::Some(t) ==> sphere_hit_t(
            s,
            r,
            t_min,
            t_max,
        ) == Option::Some(t),
        sphere_hit_t(s, r, t_min, cl) is None ==> (sphere_hit_t(s, r, t_min, t_max)
            matches Option::Some(t) ==> t > cl),
{
    if s.radius < 1 || sphere_a(s, r) < 1 || sphere_disc(s, r) < 0 {
    } else {
        lemma_root_order(s, r);
    }
}

} // verus!

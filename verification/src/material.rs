//! Materials: how a surface scatters and emits light.
use std::sync::Arc;
use vstd::prelude::*;
use crate::fixed::{Fixed, ONE, fadd, fsub, fmul, fdiv, fmax, fmin, fsqrt, lemma_fmul_zero,
    spec_fadd, spec_fsub, spec_fmul, spec_fdiv, spec_fmax, spec_fmin, spec_fsqrt};
use crate::hittable::hit_record;
use crate::ray::Ray;
use crate::raytracer::{Sampler, random_double};
use crate::texture::{texture, solid_color};
use crate::vec3::Vec3;

verus! {

/// A diffuse surface coloured by a texture.
#[derive(Debug, PartialEq)]
pub struct lambertian {
    pub albedo: Vec3,
    pub tex: Arc<texture>,
}

/// A mirror, blurred by `fuzz`.
#[derive(Debug, PartialEq)]
pub struct metal {
    pub albedo: Vec3,
    pub fuzz: Fixed,
}

/// Clear glass.
#[derive(Debug, PartialEq)]
pub struct dielectric {
    pub refraction_index: Fixed,
}

/// A light.
#[derive(Debug, PartialEq)]
pub struct diffuse_light {
    pub tex: Arc<texture>,
}

/// The phase function of a fog: it scatters evenly in all directions.
#[derive(Debug, PartialEq)]
pub struct Isotropic {
    pub tex: Arc<texture>,
}

#[derive(Debug, PartialEq)]
pub enum Material {
    Lambertian(lambertian),
    Metal(metal),
    Dielectric(dielectric),
    DiffuseLight(diffuse_light),
    Isotropic(Isotropic),
}

impl lambertian {
    /// Whether everything inside is well formed.
    pub open spec fn wf(&self) -> bool {
        self.tex.wf()
    }

    /// A diffuse surface of the one colour `a`.
    pub open spec fn spec_new(a: Vec3) -> lambertian {
        lambertian { albedo: a, tex: Arc::new(texture::Solid(solid_color::new(a))) }
    }

    /// A diffuse surface of one colour.
    #[verifier::when_used_as_spec(spec_new)]
    pub fn new(a: Vec3) -> (m: lambertian)
        ensures
            m == Self::spec_new(a),
            m.wf(),
    {
        lambertian { albedo: a, tex: Arc::new(texture::Solid(solid_color::new(a))) }
    }

    /// A diffuse surface coloured by the texture `t`.
    pub open spec fn spec_new_with_texture(t: Arc<texture>) -> lambertian {
        lambertian { albedo: Vec3::zero(), tex: t }
    }

    /// A diffuse surface coloured by the texture `t`.
    #[verifier::when_used_as_spec(spec_new_with_texture)]
    pub fn new_with_texture(t: Arc<texture>) -> (m: lambertian)
        ensures
            m == Self::spec_new_with_texture(t),
    {
        lambertian { albedo: Vec3::zero(), tex: t }
    }

    /// The direction a diffuse surface scatters into when the random unit
    /// vector is `d`: the normal plus `d`, or the normal alone where that sum
    /// is near zero.
    pub open spec fn spec_scatter_direction(normal: Vec3, d: Vec3) -> Vec3 {
        if normal.plus(d).near_zero() {
            normal
        } else {
            normal.plus(d)
        }
    }

    /// Attenuation and scattered ray for the random unit vector `d`: the
    /// texture's colour at the hit, and a ray from the hit point along
    /// `spec_scatter_direction`, at the time of the incoming ray.
    pub open spec fn spec_scatter_toward(&self, r_in: &Ray, rec: &hit_record, d: Vec3) -> (Vec3, Ray) {
        (
            self.tex.spec_value(rec.u, rec.v, &rec.p),
            Ray::new_with_time(rec.p, Self::spec_scatter_direction(rec.normal, d), r_in.tm),
        )
    }

    /// Attenuation and scattered ray for the random unit vector `d`.
    pub fn scatter_toward(&self, r_in: &Ray, rec: &hit_record, d: Vec3) -> (out: (Vec3, Ray))
        requires
            self.wf(),
        ensures
            out == self.spec_scatter_toward(r_in, rec, d),
    {
        let mut scatter_direction = rec.normal.plus(d);
        if scatter_direction.near_zero() {
            scatter_direction = rec.normal;
        }
        (self.tex.value(rec.u, rec.v, &rec.p), Ray::new_with_time(rec.p, scatter_direction, r_in.time()))
    }

    /// Always scatters: `scatter_toward` a random unit vector.
    pub fn scatter(
        &self,
        r_in: &Ray,
        rec: &hit_record,
        attenuation: &mut Vec3,
        scattered: &mut Ray,
        rng: &mut Sampler,
    ) -> (res: bool)
        requires
            self.wf(),
        ensures
            res,
            exists|d: Vec3|
                Vec3::is_unit_sample(d) && (*final(attenuation), *final(scattered)) == self.spec_scatter_toward(
                    r_in,
                    rec,
                    d,
                ),
    {
        let d = Vec3::random_unit_vector(rng);
        let out = self.scatter_toward(r_in, rec, d);
        *attenuation = out.0;
        *scattered = out.1;
        true
    }
}

impl metal {
    /// A mirror of colour `a` with blur `f`, clamped to [0, 1].
    pub open spec fn spec_new(a: Vec3, f: i64) -> metal {
        metal { albedo: a, fuzz: fmax(0, fmin(f, ONE)) }
    }

    /// A mirror of colour `a`; the blur `f` is clamped to [0, 1]: a
    /// negative blur counts as none, one above 1 as 1.
    #[verifier::when_used_as_spec(spec_new)]
    pub fn new(a: Vec3, f: Fixed) -> (m: metal)
        ensures
            m == Self::spec_new(a, f),
            0 <= m.fuzz <= ONE,
            0 <= f <= ONE ==> m.fuzz == f,
    {
        metal { albedo: a, fuzz: fmax(0, fmin(f, ONE)) }
    }

    /// Whether the surface scatters, the attenuation and the scattered ray
    /// for the random unit vector `d`. The ray leaves the hit point along
    /// the normalized mirror direction plus `fuzz * d`; the surface scatters
    /// if that direction points away from it.
    pub open spec fn spec_scatter_toward(&self, r_in: &Ray, rec: &hit_record, d: Vec3) -> (bool, Vec3, Ray) {
        let reflected = r_in.dir.reflect(rec.normal).normalize().plus(d.scale(self.fuzz));
        (reflected.dot(rec.normal) > 0, self.albedo, Ray::new_with_time(rec.p, reflected, r_in.tm))
    }

    /// Attenuation and scattered ray for the random unit vector `d`.
    pub fn scatter_toward(&self, r_in: &Ray, rec: &hit_record, d: Vec3) -> (out: (bool, Vec3, Ray))
        ensures
            out == self.spec_scatter_toward(r_in, rec, d),
    {
        let mut reflected = r_in.direction().reflect(rec.normal);
        reflected = reflected.normalize().plus(d.scale(self.fuzz));
        let scattered = Ray::new_with_time(rec.p, reflected, r_in.time());
        (scattered.direction().dot(rec.normal) > 0, self.albedo, scattered)
    }

    /// `scatter_toward` a random unit vector. The attenuation and the ray
    /// are written whether or not the surface scatters.
    pub fn scatter(
        &self,
        r_in: &Ray,
        rec: &hit_record,
        attenuation: &mut Vec3,
        scattered: &mut Ray,
        rng: &mut Sampler,
    ) -> (res: bool)
        ensures
            exists|d: Vec3|
                Vec3::is_unit_sample(d) && (res, *final(attenuation), *final(scattered))
                    == self.spec_scatter_toward(r_in, rec, d),
    {
        let d = Vec3::random_unit_vector(rng);
        let out = self.scatter_toward(r_in, rec, d);
        *attenuation = out.1;
        *scattered = out.2;
        out.0
    }
}

/// The fifth power of `x`.
pub open spec fn spec_pow5(x: i64) -> i64 {
    fmul(fmul(fmul(x, x), fmul(x, x)), x)
}

/// The fifth power of `x`.
#[verifier::when_used_as_spec(spec_pow5)]
pub fn pow5(x: Fixed) -> (r: Fixed)
    ensures
        r == spec_pow5(x),
{
    let x2: i64 = fmul(x, x);
    fmul(fmul(x2, x2), x)
}

impl dielectric {
    /// Glass with the refraction index `ri`.
    pub open spec fn spec_new(ri: i64) -> dielectric {
        dielectric { refraction_index: ri }
    }

    /// Glass with the refraction index `ri`.
    #[verifier::when_used_as_spec(spec_new)]
    pub fn new(ri: Fixed) -> (m: dielectric)
        ensures
            m == Self::spec_new(ri),
    {
        dielectric { refraction_index: ri }
    }

    /// The reflectance at normal incidence: `((1 - ri) / (1 + ri))^2`.
    pub open spec fn spec_r0(ref_idx: i64) -> i64 {
        fmul(fdiv(fsub(ONE, ref_idx), fadd(ONE, ref_idx)), fdiv(fsub(ONE, ref_idx), fadd(ONE, ref_idx)))
    }

    /// Schlick's approximation of the reflectance:
    /// `r0 + (1 - r0) * (1 - cosine)^5`.
    pub open spec fn spec_reflectance(cosine: i64, ref_idx: i64) -> i64 {
        fadd(Self::spec_r0(ref_idx), fmul(fsub(ONE, Self::spec_r0(ref_idx)), pow5(fsub(ONE, cosine))))
    }

    /// The share of light that is reflected. At normal incidence, where the
    /// cosine is 1, it is `spec_r0` exactly.
    #[verifier::when_used_as_spec(spec_reflectance)]
    pub fn reflectance(cosine: Fixed, ref_idx: Fixed) -> (r: Fixed)
        ensures
            r == Self::spec_reflectance(cosine, ref_idx),
            cosine == ONE ==> r == Self::spec_r0(ref_idx),
    {
        let r0: i64 = fdiv(fsub(ONE, ref_idx), fadd(ONE, ref_idx));
        let r0: i64 = fmul(r0, r0);
        proof {
            lemma_reflectance_at_normal_incidence(ref_idx);
        }
        fadd(r0, fmul(fsub(ONE, r0), pow5(fsub(ONE, cosine))))
    }

    /// The refraction index that the ray sees: the reciprocal on the way
    /// in.
    pub open spec fn spec_relative_index(&self, rec: &hit_record) -> i64 {
        if rec.front_face {
            fdiv(ONE, self.refraction_index)
        } else {
            self.refraction_index
        }
    }

    /// The direction in which glass sends a ray for the unit sample
    /// `sample`. With `cos = min(dot(-unit, normal), 1)` and
    /// `sin = sqrt(1 - cos^2)`, the ray is mirrored when `ri * sin > 1`
    /// (total internal reflection) or when the reflectance exceeds the
    /// sample, and refracted otherwise.
    pub open spec fn spec_scatter_direction(&self, r_in: &Ray, rec: &hit_record, sample: i64) -> Vec3 {
        let ri = self.spec_relative_index(rec);
        let unit_direction = r_in.dir.normalize();
        let cos_theta = fmin(unit_direction.negated().dot(rec.normal), ONE);
        let sin_theta = fsqrt(fsub(ONE, fmul(cos_theta, cos_theta)));
        if fmul(ri, sin_theta) > ONE || Self::spec_reflectance(cos_theta, ri) > sample {
            unit_direction.reflect(rec.normal)
        } else {
            Vec3::refract(unit_direction, rec.normal, ri)
        }
    }

    /// Attenuation and scattered ray for the unit sample `sample`: glass
    /// absorbs nothing, so the attenuation is white.
    pub open spec fn spec_scatter_given(&self, r_in: &Ray, rec: &hit_record, sample: i64) -> (Vec3, Ray) {
        (
            Vec3 { x: ONE, y: ONE, z: ONE },
            Ray::new_with_time(rec.p, self.spec_scatter_direction(r_in, rec, sample), r_in.tm),
        )
    }

    /// Attenuation and scattered ray for the unit sample `sample`.
    pub fn scatter_given(&self, r_in: &Ray, rec: &hit_record, sample: Fixed) -> (out: (Vec3, Ray))
        ensures
            out == self.spec_scatter_given(r_in, rec, sample),
    {
        let ri: i64 = if rec.front_face {
            fdiv(ONE, self.refraction_index)
        } else {
            self.refraction_index
        };
        let unit_direction = r_in.direction().normalize();
        let cos_theta: i64 = fmin(unit_direction.negated().dot(rec.normal), ONE);
        let sin_theta: i64 = fsqrt(fsub(ONE, fmul(cos_theta, cos_theta)));
        let cannot_refract = fmul(ri, sin_theta) > ONE;
        let direction = if cannot_refract || Self::reflectance(cos_theta, ri) > sample {
            unit_direction.reflect(rec.normal)
        } else {
            Vec3::refract(unit_direction, rec.normal, ri)
        };
        (Vec3::new(ONE, ONE, ONE), Ray::new_with_time(rec.p, direction, r_in.time()))
    }

    /// Always scatters: `scatter_given` a random unit sample.
    pub fn scatter(
        &self,
        r_in: &Ray,
        rec: &hit_record,
        attenuation: &mut Vec3,
        scattered: &mut Ray,
        rng: &mut Sampler,
    ) -> (res: bool)
        ensures
            res,
            exists|sample: i64|
                0 <= sample < ONE && (*final(attenuation), *final(scattered)) == self.spec_scatter_given(
                    r_in,
                    rec,
                    sample,
                ),
    {
        let sample: i64 = random_double(rng);
        let out = self.scatter_given(r_in, rec, sample);
        *attenuation = out.0;
        *scattered = out.1;
        true
    }
}

/// At normal incidence the reflectance of glass is `r0`, whatever the
/// refraction index.
pub proof fn lemma_reflectance_at_normal_incidence(ref_idx: i64)
    ensures
        dielectric::spec_reflectance(ONE, ref_idx) == dielectric::spec_r0(ref_idx),
{
    let r0 = dielectric::spec_r0(ref_idx);
    assert(fsub(ONE, ONE) == 0);
    lemma_fmul_zero(0);
    assert(pow5(0) == 0);
    lemma_fmul_zero(fsub(ONE, r0));
}

impl diffuse_light {
    /// Whether everything inside is well formed.
    pub open spec fn wf(&self) -> bool {
        self.tex.wf()
    }

    /// A light that shines with the texture `t`.
    pub open spec fn spec_new(t: Arc<texture>) -> diffuse_light {
        diffuse_light { tex: t }
    }

    /// A light that shines with the texture `t`.
    #[verifier::when_used_as_spec(spec_new)]
    pub fn new(t: Arc<texture>) -> (m: diffuse_light)
        ensures
            m == Self::spec_new(t),
    {
        diffuse_light { tex: t }
    }

    /// A light of the one colour `c`.
    pub open spec fn spec_new_from_emit_color(c: Vec3) -> diffuse_light {
        diffuse_light { tex: Arc::new(texture::Solid(solid_color::new(c))) }
    }

    /// A light of one colour.
    #[verifier::when_used_as_spec(spec_new_from_emit_color)]
    pub fn new_from_emit_color(c: Vec3) -> (m: diffuse_light)
        ensures
            m == Self::spec_new_from_emit_color(c),
            m.wf(),
    {
        diffuse_light { tex: Arc::new(texture::Solid(solid_color::new(c))) }
    }

    /// A light never scatters, and leaves both outputs as they were.
    pub fn scatter(
        &self,
        r_in: &Ray,
        rec: &hit_record,
        attenuation: &mut Vec3,
        scattered: &mut Ray,
        rng: &mut Sampler,
    ) -> (res: bool)
        ensures
            !res,
            *final(attenuation) == *old(attenuation),
            *final(scattered) == *old(scattered),
    {
        false
    }

    /// The light's texture at the hit.
    pub open spec fn spec_emitted(&self, u: i64, v: i64, p: &Vec3) -> Vec3 {
        self.tex.spec_value(u, v, p)
    }

    /// The light the surface emits at the hit.
    pub fn emitted(&self, u: Fixed, v: Fixed, p: &Vec3) -> (c: Vec3)
        requires
            self.wf(),
        ensures
            c == self.spec_emitted(u, v, p),
    {
        self.tex.value(u, v, p)
    }
}

impl Isotropic {
    /// Whether everything inside is well formed.
    pub open spec fn wf(&self) -> bool {
        self.tex.wf()
    }

    /// A fog coloured by the texture `t`.
    pub open spec fn spec_new(t: Arc<texture>) -> Isotropic {
        Isotropic { tex: t }
    }

    /// A fog coloured by the texture `t`.
    #[verifier::when_used_as_spec(spec_new)]
    pub fn new(t: Arc<texture>) -> (m: Isotropic)
        ensures
            m == Self::spec_new(t),
    {
        Isotropic { tex: t }
    }

    /// A fog of the one colour `c`.
    pub open spec fn spec_new_from_color(c: Vec3) -> Isotropic {
        Isotropic { tex: Arc::new(texture::Solid(solid_color::new(c))) }
    }

    /// A fog of the one colour `c`.
    #[verifier::when_used_as_spec(spec_new_from_color)]
    pub fn new_from_color(c: Vec3) -> (m: Isotropic)
        ensures
            m == Self::spec_new_from_color(c),
            m.wf(),
    {
        Isotropic { tex: Arc::new(texture::Solid(solid_color::new(c))) }
    }

    /// Attenuation and scattered ray for the random unit vector `d`: the
    /// texture's colour at the hit, and a ray from the hit point along `d`.
    pub open spec fn spec_scatter_toward(&self, r_in: &Ray, rec: &hit_record, d: Vec3) -> (Vec3, Ray) {
        (self.tex.spec_value(rec.u, rec.v, &rec.p), Ray::new_with_time(rec.p, d, r_in.tm))
    }

    /// Attenuation and scattered ray for the random unit vector `d`.
    pub fn scatter_toward(&self, r_in: &Ray, rec: &hit_record, d: Vec3) -> (out: (Vec3, Ray))
        requires
            self.wf(),
        ensures
            out == self.spec_scatter_toward(r_in, rec, d),
    {
        (self.tex.value(rec.u, rec.v, &rec.p), Ray::new_with_time(rec.p, d, r_in.time()))
    }

    /// Always scatters: `scatter_toward` a random unit vector.
    pub fn scatter(
        &self,
        r_in: &Ray,
        rec: &hit_record,
        attenuation: &mut Vec3,
        scattered: &mut Ray,
        rng: &mut Sampler,
    ) -> (res: bool)
        requires
            self.wf(),
        ensures
            res,
            exists|d: Vec3|
                Vec3::is_unit_sample(d) && (*final(attenuation), *final(scattered)) == self.spec_scatter_toward(
                    r_in,
                    rec,
                    d,
                ),
    {
        let d = Vec3::random_unit_vector(rng);
        let out = self.scatter_toward(r_in, rec, d);
        *attenuation = out.0;
        *scattered = out.1;
        true
    }
}

impl Material {
    /// Whether every texture inside is well formed.
    pub open spec fn wf(&self) -> bool {
        match self {
            Material::Lambertian(m) => m.wf(),
            Material::Metal(_) => true,
            Material::Dielectric(_) => true,
            Material::DiffuseLight(m) => m.wf(),
            Material::Isotropic(m) => m.wf(),
        }
    }

    /// Tests `wf`.
    pub fn is_well_formed(&self) -> (ok: bool)
        ensures
            ok == self.wf(),
    {
        match self {
            Material::Lambertian(m) => m.tex.is_well_formed(),
            Material::Metal(_) => true,
            Material::Dielectric(_) => true,
            Material::DiffuseLight(m) => m.tex.is_well_formed(),
            Material::Isotropic(m) => m.tex.is_well_formed(),
        }
    }

    /// Whether the material never scatters.
    pub open spec fn is_light(&self) -> bool {
        self is DiffuseLight
    }

    /// Whether `scatter` may return `res` and leave `attenuation` and
    /// `scattered` behind, having found `before` in the two outputs.
    #[verifier::opaque]
    pub open spec fn scatter_outcome(
        &self,
        r_in: &Ray,
        rec: &hit_record,
        before: (Vec3, Ray),
        res: bool,
        attenuation: Vec3,
        scattered: Ray,
    ) -> bool {
        match self {
            Material::Lambertian(m) => res && exists|d: Vec3|
                Vec3::is_unit_sample(d) && (attenuation, scattered) == m.spec_scatter_toward(r_in, rec, d),
            Material::Metal(m) => exists|d: Vec3|
                Vec3::is_unit_sample(d) && (res, attenuation, scattered) == m.spec_scatter_toward(r_in, rec, d),
            Material::Dielectric(m) => res && exists|sample: i64|
                0 <= sample < ONE && (attenuation, scattered) == m.spec_scatter_given(r_in, rec, sample),
            Material::DiffuseLight(_) => !res && (attenuation, scattered) == before,
            Material::Isotropic(m) => res && exists|d: Vec3|
                Vec3::is_unit_sample(d) && (attenuation, scattered) == m.spec_scatter_toward(r_in, rec, d),
        }
    }

    /// Decides whether the surface scatters the ray `r_in` that hit it at
    /// `rec`; if so, `attenuation` and `scattered` say how.
    pub fn scatter(
        &self,
        r_in: &Ray,
        rec: &hit_record,
        attenuation: &mut Vec3,
        scattered: &mut Ray,
        rng: &mut Sampler,
    ) -> (res: bool)
        requires
            self.wf(),
        ensures
            self.scatter_outcome(
                r_in,
                rec,
                (*old(attenuation), *old(scattered)),
                res,
                *final(attenuation),
                *final(scattered),
            ),
    {
        proof {
            reveal(Material::scatter_outcome);
        }
        match self {
            Material::Lambertian(m) => m.scatter(r_in, rec, attenuation, scattered, rng),
            Material::Metal(m) => m.scatter(r_in, rec, attenuation, scattered, rng),
            Material::Dielectric(m) => m.scatter(r_in, rec, attenuation, scattered, rng),
            Material::DiffuseLight(m) => m.scatter(r_in, rec, attenuation, scattered, rng),
            Material::Isotropic(m) => m.scatter(r_in, rec, attenuation, scattered, rng),
        }
    }

    /// The light the surface emits: the texture of a light, black for
    /// everything else.
    #[verifier::opaque]
    pub open spec fn spec_emitted(&self, u: i64, v: i64, p: &Vec3) -> Vec3 {
        match self {
            Material::DiffuseLight(m) => m.spec_emitted(u, v, p),
            _ => Vec3::zero(),
        }
    }

    /// The light the surface emits at the hit.
    pub fn emitted(&self, u: Fixed, v: Fixed, p: &Vec3) -> (c: Vec3)
        requires
            self.wf(),
        ensures
            c == self.spec_emitted(u, v, p),
    {
        proof {
            reveal(Material::spec_emitted);
        }
        match self {
            Material::DiffuseLight(m) => m.emitted(u, v, p),
            _ => Vec3::zero(),
        }
    }
}
} // verus!

use vstd::prelude::*;
use crate::hit_record::HitRecord;
use crate::ray::Ray;
use crate::vec3::{Color, Point3, Scalar};

verus! {

/// What a surface does with light.
///
/// An implementer does the arithmetic on colours and directions. Scattering
/// may draw random numbers, so its spec function is a relation: it says
/// which outcomes are possible, not which one comes.
pub trait Material {
    /// Whether `scatter` may report `out` for the ray `r_in` that hit at
    /// `rec`: `None` that the light is absorbed, else the attenuation and
    /// the scattered ray.
    spec fn may_scatter(&self, r_in: Ray, rec: HitRecord, out: Option<(Color, Ray)>) -> bool;

    /// What `emitted` reports.
    spec fn emitted_spec(&self, u: Scalar, v: Scalar, p: Point3) -> Color;

    /// What `blend` reports.
    spec fn blend_spec(emitted: Color, attenuation: Color, incoming: Color) -> Color;

    /// How the surface scatters the ray `r_in` that hit it at `rec`, if it
    /// does.
    fn scatter(&self, r_in: &Ray, rec: &HitRecord) -> (out: Option<(Color, Ray)>)
        ensures
            self.may_scatter(*r_in, *rec, out),
    ;

    /// The light that the surface gives off at the point `p`, whose texture
    /// coordinates are `u` and `v`.
    fn emitted(&self, u: Scalar, v: Scalar, p: &Point3) -> (c: Color)
        ensures
            c == self.emitted_spec(u, v, *p),
    ;

    /// The colour of a ray from a surface: what the surface emits and,
    /// channel by channel, the attenuated colour that comes in along the
    /// scattered ray.
    fn blend(emitted: Color, attenuation: Color, incoming: Color) -> (c: Color)
        ensures
            c == Self::blend_spec(emitted, attenuation, incoming),
    ;
}

} // verus!

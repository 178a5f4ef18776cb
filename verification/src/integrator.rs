use vstd::prelude::*;
use crate::hittable::Hittable;
use crate::material::Material;
use crate::ray::Ray;
use crate::vec3::{Color, Scalar, Vec3};

verus! {

/// No light: every channel is the scalar 0, which stands for zero.
pub open spec fn black() -> Color {
    Vec3 { x: 0, y: 0, z: 0 }
}

/// Whether `colour` may come back along the ray `r` that may bounce `depth`
/// times more.
///
/// At depth 0 it is black. A ray that hits nothing from `t_min` to `t_max`
/// brings the background. A ray that hits a surface brings what the surface
/// emits if the surface absorbs it; if the surface scatters it, the
/// emission blended with the attenuated colour of the scattered ray, which
/// may bounce once less. A hit whose material is not among `materials`
/// counts as black.
pub open spec fn may_colour<W: Hittable, M: Material>(
    world: W,
    materials: Seq<M>,
    r: Ray,
    background: Color,
    t_min: Scalar,
    t_max: Scalar,
    depth: nat,
    colour: Color,
) -> bool
    decreases depth,
{
    if depth == 0 {
        colour == black()
    } else {
        match world.hit_spec(r, t_min, t_max) {
            None => colour == background,
            Some(rec) => if rec.material >= materials.len() {
                colour == black()
            } else {
                let material = materials[rec.material as int];
                let emitted = material.emitted_spec(rec.u, rec.v, rec.p);
                ||| material.may_scatter(r, rec, None) && colour == emitted
                ||| exists|attenuation: Color, scattered: Ray, incoming: Color|
                    #![trigger
                        material.may_scatter(r, rec, Some((attenuation, scattered))),
                        M::blend_spec(emitted, attenuation, incoming)
                    ]
                    {
                        &&& material.may_scatter(r, rec, Some((attenuation, scattered)))
                        &&& may_colour(
                            world,
                            materials,
                            scattered,
                            background,
                            t_min,
                            t_max,
                            (depth - 1) as nat,
                            incoming,
                        )
                        &&& colour == M::blend_spec(emitted, attenuation, incoming)
                    }
            },
        }
    }
}

/// The colour that comes back along `r` through a scene: the nearest hit of
/// `world` from `t_min` to `t_max` is looked up in `materials`, and the
/// light is followed for `depth` bounces at most.
pub fn ray_color<W: Hittable, M: Material>(
    r: &Ray,
    background: &Color,
    world: &W,
    materials: &Vec<M>,
    t_min: Scalar,
    t_max: Scalar,
    depth: u32,
) -> (colour: Color)
    ensures
        may_colour(*world, materials@, *r, *background, t_min, t_max, depth as nat, colour),
    decreases depth,
{
    if depth == 0 {
        return Vec3::new(0, 0, 0);
    }
    match world.hit(r, t_min, t_max) {
        None => *background,
        Some(rec) => {
            if rec.material >= materials.len() {
                return Vec3::new(0, 0, 0);
            }
            let material = &materials[rec.material];
            let emitted = material.emitted(rec.u, rec.v, &rec.p);
            match material.scatter(r, &rec) {
                None => emitted,
                Some((attenuation, scattered)) => {
                    let incoming = ray_color(
                        &scattered,
                        background,
                        world,
                        materials,
                        t_min,
                        t_max,
                        depth - 1,
                    );
                    let colour = M::blend(emitted, attenuation, incoming);
                    assert(materials@[rec.material as int].may_scatter(
                        *r,
                        rec,
                        Some((attenuation, scattered)),
                    ));
                    assert(colour == M::blend_spec(emitted, attenuation, incoming));
                    colour
                },
            }
        },
    }
}

/// A ray that may bounce no further is black, whatever the scene.
pub proof fn lemma_depth_zero_is_black<W: Hittable, M: Material>(
    world: W,
    materials: Seq<M>,
    r: Ray,
    background: Color,
    t_min: Scalar,
    t_max: Scalar,
    colour: Color,
)
    ensures
        may_colour(world, materials, r, background, t_min, t_max, 0, colour) <==> colour == black(),
{
}

/// A ray that hits nothing brings the background.
pub proof fn lemma_miss_is_background<W: Hittable, M: Material>(
    world: W,
    materials: Seq<M>,
    r: Ray,
    background: Color,
    t_min: Scalar,
    t_max: Scalar,
    depth: nat,
    colour: Color,
)
    requires
        depth > 0,
        world.hit_spec(r, t_min, t_max).is_none(),
    ensures
        may_colour(world, materials, r, background, t_min, t_max, depth, colour) <==> colour
            == background,
{
}

/// A ray that hits a surface which never scatters brings what the surface
/// emits, and nothing else.
pub proof fn lemma_light_shows_its_emission<W: Hittable, M: Material>(
    world: W,
    materials: Seq<M>,
    r: Ray,
    background: Color,
    t_min: Scalar,
    t_max: Scalar,
    depth: nat,
    colour: Color,
)
    requires
        depth > 0,
        world.hit_spec(r, t_min, t_max).is_some(),
        world.hit_spec(r, t_min, t_max).unwrap().material < materials.len(),
        ({
            let rec = world.hit_spec(r, t_min, t_max).unwrap();
            forall|out: Option<(Color, Ray)>|
                #[trigger] materials[rec.material as int].may_scatter(r, rec, out)
                    ==> out.is_none()
        }),
        may_colour(world, materials, r, background, t_min, t_max, depth, colour),
    ensures
        ({
            let rec = world.hit_spec(r, t_min, t_max).unwrap();
            colour == materials[rec.material as int].emitted_spec(rec.u, rec.v, rec.p)
        }),
{
}

} // verus!

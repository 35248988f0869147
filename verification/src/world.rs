//! The scene: an ordered collection of spheres, the nearest hit of a ray
//! among them, and the colour that a ray gathers by bouncing through them.

use crate::fixed::{
    lemma_blend, lemma_product_half, lemma_trunc_div_bound, trunc_div, Fixed, ONE_RAW,
};
use crate::unit_length::{lemma_unit_of_zero, lemma_unit_vector_length};
use crate::hit::{Hit, Hitable};
use crate::material::{inside_unit_sphere, is_draw, is_settled, Lambertian};
use crate::ray::Ray;
use crate::sphere::Sphere;
use crate::vec3::{DegenerateVectorError, Vec3};
use rand::rngs::StdRng;
use vstd::prelude::*;

verus! {

/// The raw value of one half.
pub const HALF_RAW: i64 = 0x8000_0000;

/// The raw value of the green channel of sky blue, seven tenths rounded
/// toward zero.
pub const SKY_GREEN_RAW: i64 = 3006477107;

/// What each object reports for the ray, in the order of the objects.
pub open spec fn candidates(objects: Seq<Sphere>, ray: Ray, t_min: Fixed, t_max: Fixed) -> Seq<
    Option<Hit>,
> {
    Seq::new(objects.len(), |i: int| objects[i].hit_spec(t_min, t_max, &ray))
}

/// The nearest of the hits among `found`, scanned from the left: a later hit
/// replaces the one kept so far only where its parameter is strictly less.
pub open spec fn closest(found: Seq<Option<Hit>>) -> Option<Hit>
    decreases found.len(),
{
    if found.len() == 0 {
        None
    } else {
        let before = closest(found.drop_last());
        match found.last() {
            None => before,
            Some(hit) => match before {
                None => Some(hit),
                Some(kept) => if hit.t@ < kept.t@ {
                    Some(hit)
                } else {
                    before
                },
            },
        }
    }
}

/// The nearest hit of the ray among `objects`.
pub open spec fn closest_of(objects: Seq<Sphere>, ray: Ray, t_min: Fixed, t_max: Fixed) -> Option<
    Hit,
> {
    closest(candidates(objects, ray, t_min, t_max))
}

/// Entry `i` of `found` is a hit, no entry is a hit at a smaller parameter,
/// and no earlier entry a hit at the same one.
pub open spec fn is_nearest(found: Seq<Option<Hit>>, i: int) -> bool {
    &&& 0 <= i < found.len()
    &&& found[i] is Some
    &&& forall|j: int|
        0 <= j < found.len() ==> match #[trigger] found[j] {
            None => true,
            Some(other) => found[i]->0.t@ <= other.t@ && (j < i ==> found[i]->0.t@ < other.t@),
        }
}

/// The scan finds nothing exactly where no entry is a hit, and else returns
/// the nearest hit, the earliest of those that are equally near.
pub proof fn lemma_closest_is_nearest(found: Seq<Option<Hit>>)
    ensures
        closest(found) is None ==> forall|j: int| 0 <= j < found.len() ==> found[j] is None,
        closest(found) is Some ==> exists|i: int|
            is_nearest(found, i) && #[trigger] found[i] == closest(found),
    decreases found.len(),
{
    if found.len() > 0 {
        let rest = found.drop_last();
        let last = found.len() - 1;
        lemma_closest_is_nearest(rest);
        assert(forall|j: int| 0 <= j < rest.len() ==> rest[j] == found[j]);
        let before = closest(rest);
        if before is Some {
            let i = choose|i: int| is_nearest(rest, i) && #[trigger] rest[i] == before;
            if found.last() is Some && found.last()->0.t@ < before->0.t@ {
                assert(is_nearest(found, last));
                assert(found[last] == closest(found));
            } else {
                assert(is_nearest(found, i));
                assert(found[i] == closest(found));
            }
        } else if found.last() is Some {
            assert(is_nearest(found, last));
            assert(found[last] == closest(found));
        }
    }
}

/// The parameter of the nearest hit depends only on which hits there are:
/// two sequences with the same entries, in whatever order and number,
/// either both hold no hit, or have their nearest hits at the same parameter.
pub proof fn lemma_closest_same_entries(a: Seq<Option<Hit>>, b: Seq<Option<Hit>>)
    requires
        forall|x: Option<Hit>| a.contains(x) <==> b.contains(x),
    ensures
        closest(a) is None <==> closest(b) is None,
        closest(a) is Some ==> closest(a)->0.t == closest(b)->0.t,
{
    lemma_closest_is_nearest(a);
    lemma_closest_is_nearest(b);
    if closest(a) is Some {
        let i = choose|i: int| is_nearest(a, i) && #[trigger] a[i] == closest(a);
        assert(a.contains(a[i]));
        let j = choose|j: int| 0 <= j < b.len() && b[j] == a[i];
        assert(b[j] is Some);
        assert(closest(b) is Some);
        let k = choose|k: int| is_nearest(b, k) && #[trigger] b[k] == closest(b);
        assert(b.contains(b[k]));
        let l = choose|l: int| 0 <= l < a.len() && a[l] == b[k];
        assert(a[l] is Some);
    } else if closest(b) is Some {
        let k = choose|k: int| is_nearest(b, k) && #[trigger] b[k] == closest(b);
        assert(b.contains(b[k]));
        let l = choose|l: int| 0 <= l < a.len() && a[l] == b[k];
        assert(a[l] is Some);
    }
}

/// The nearest hit does not depend on the order of the objects: two scenes
/// that hold the same objects, each as often in the one as in the other,
/// either both report no hit, or report hits at the same parameter.
pub proof fn lemma_nearest_hit_order_independent(
    a: Seq<Sphere>,
    b: Seq<Sphere>,
    ray: Ray,
    t_min: Fixed,
    t_max: Fixed,
)
    requires
        a.to_multiset() == b.to_multiset(),
    ensures
        closest_of(a, ray, t_min, t_max) is None <==> closest_of(b, ray, t_min, t_max) is None,
        closest_of(a, ray, t_min, t_max) is Some ==> closest_of(a, ray, t_min, t_max)->0.t
            == closest_of(b, ray, t_min, t_max)->0.t,
{
    lemma_candidates_in_other_order(a, b, ray, t_min, t_max);
    lemma_candidates_in_other_order(b, a, ray, t_min, t_max);
    lemma_closest_same_entries(
        candidates(a, ray, t_min, t_max),
        candidates(b, ray, t_min, t_max),
    );
}

/// What an object of `a` reports, an object of `b` reports too, where `b`
/// holds every object of `a`.
proof fn lemma_candidates_in_other_order(
    a: Seq<Sphere>,
    b: Seq<Sphere>,
    ray: Ray,
    t_min: Fixed,
    t_max: Fixed,
)
    requires
        a.to_multiset() == b.to_multiset(),
    ensures
        forall|x: Option<Hit>|
            candidates(a, ray, t_min, t_max).contains(x) ==> candidates(
                b,
                ray,
                t_min,
                t_max,
            ).contains(x),
{
    let ca = candidates(a, ray, t_min, t_max);
    let cb = candidates(b, ray, t_min, t_max);
    assert forall|x: Option<Hit>| ca.contains(x) implies cb.contains(x) by {
        let i = choose|i: int| 0 <= i < ca.len() && ca[i] == x;
        assert(a.contains(a[i]));
        vstd::seq_lib::to_multiset_contains(a, a[i]);
        vstd::seq_lib::to_multiset_contains(b, a[i]);
        let j = choose|j: int| 0 <= j < b.len() && b[j] == a[i];
        assert(cb[j] == x);
    }
}

/// The colour of the sky in the direction of `ray`: sky blue blended into
/// white by `t`, half of the height of the unit direction plus one. So the
/// sky is white straight above, where `t` is one, and sky blue straight
/// below, where `t` is zero. A ray whose direction is the zero vector sees
/// black.
#[verifier::opaque]
pub open spec fn ambient_spec(ray: Ray) -> Vec3 {
    match ray.direction.unit_spec() {
        Err(_) => Vec3::zeroes_spec(),
        Ok(unit) => {
            let t = Fixed::saturating(HALF_RAW as int).times(
                unit.y.plus(Fixed::saturating(ONE_RAW as int)),
            );
            sky_blue_spec().scaled(Fixed::saturating(ONE_RAW as int).minus(t)).plus(
                Vec3::ones_spec().scaled(t),
            )
        },
    }
}

/// Sky blue: `(0.5, 0.7, 1.0)`.
pub open spec fn sky_blue_spec() -> Vec3 {
    Vec3::saturating(HALF_RAW as int, SKY_GREEN_RAW as int, ONE_RAW as int)
}

/// The sky lies between sky blue and white, whatever the direction and
/// however long it is: red in `[0.5, 1]`, green in `[0.7, 1]`, blue one. Only
/// a ray without direction sees black.
pub proof fn lemma_ambient_between(ray: Ray)
    ensures
        ray.direction@ == (0int, 0int, 0int) ==> ambient_spec(ray) == Vec3::zeroes_spec(),
        ray.direction@ != (0int, 0int, 0int) ==> HALF_RAW <= ambient_spec(ray).x@ <= ONE_RAW
            && SKY_GREEN_RAW <= ambient_spec(ray).y@ <= ONE_RAW && ambient_spec(ray).z@ == ONE_RAW,
{
    reveal(ambient_spec);
    if ray.direction@ != (0int, 0int, 0int) {
        lemma_unit_vector_length(ray.direction);
        let unit = ray.direction.unit_spec()->Ok_0;
        let lifted = unit.y@ + ONE_RAW;
        lemma_product_half(lifted);
        lemma_trunc_div_bound(lifted, 2);
        let t = trunc_div(lifted, 2);
        assert(0 <= t <= ONE_RAW);
        lemma_blend(t, HALF_RAW as int);
        lemma_blend(t, SKY_GREEN_RAW as int);
        lemma_blend(t, ONE_RAW as int);
    } else {
        lemma_unit_of_zero(ray.direction);
    }
}

/// The colour that a ray gathers among `objects` when its bounces take the
/// given offsets, one a bounce, in their order. A ray that hits nothing
/// sees the sky. A ray that hits something sees black where no bounce or no
/// offset is left, or where its bounce has no direction; else half of what
/// the bounced ray gathers with the offsets that remain.
pub open spec fn traced_along(
    objects: Seq<Sphere>,
    ray: Ray,
    t_min: Fixed,
    t_max: Fixed,
    depth: nat,
    offsets: Seq<Vec3>,
) -> Vec3
    decreases depth,
{
    match closest_of(objects, ray, t_min, t_max) {
        None => ambient_spec(ray),
        Some(hit) => if depth == 0 || offsets.len() == 0 {
            Vec3::zeroes_spec()
        } else {
            match Lambertian::bounce_spec(hit, offsets[0]) {
                Err(_) => Vec3::zeroes_spec(),
                Ok(next) => attenuate_spec(
                    traced_along(
                        objects,
                        next,
                        t_min,
                        t_max,
                        (depth - 1) as nat,
                        offsets.drop_first(),
                    ),
                ),
            }
        },
    }
}

/// Every one of `offsets` is a point that a draw may give, strictly inside
/// the unit sphere.
pub open spec fn are_draws(offsets: Seq<Vec3>) -> bool {
    forall|i: int|
        0 <= i < offsets.len() ==> inside_unit_sphere(#[trigger] offsets[i]) && is_draw(offsets[i])
}

/// Hits of `found` at the same parameter are the same hit.
pub open spec fn tie_free(found: Seq<Option<Hit>>) -> bool {
    forall|i: int, j: int|
        0 <= i < found.len() && 0 <= j < found.len() && (#[trigger] found[i]) is Some && (
        #[trigger] found[j]) is Some && found[i]->0.t == found[j]->0.t ==> found[i] == found[j]
}

/// Two scenes that hold the same objects report the same nearest hit for a
/// ray on which no two objects are hit at the same parameter.
pub proof fn lemma_same_nearest_hit(
    a: Seq<Sphere>,
    b: Seq<Sphere>,
    ray: Ray,
    t_min: Fixed,
    t_max: Fixed,
)
    requires
        a.to_multiset() == b.to_multiset(),
        tie_free(candidates(a, ray, t_min, t_max)),
    ensures
        closest_of(a, ray, t_min, t_max) == closest_of(b, ray, t_min, t_max),
{
    let ca = candidates(a, ray, t_min, t_max);
    let cb = candidates(b, ray, t_min, t_max);
    lemma_candidates_in_other_order(a, b, ray, t_min, t_max);
    lemma_candidates_in_other_order(b, a, ray, t_min, t_max);
    lemma_closest_same_entries(ca, cb);
    lemma_closest_is_nearest(ca);
    lemma_closest_is_nearest(cb);
    if closest(ca) is Some {
        let i = choose|i: int| is_nearest(ca, i) && #[trigger] ca[i] == closest(ca);
        let k = choose|k: int| is_nearest(cb, k) && #[trigger] cb[k] == closest(cb);
        assert(cb.contains(cb[k]));
        let l = choose|l: int| 0 <= l < ca.len() && ca[l] == cb[k];
        assert(ca[l] is Some && ca[i] is Some);
    }
}

/// The colour that a ray gathers does not depend on the order of the
/// objects: two scenes that hold the same objects give the same colour for
/// the same offsets, as long as no ray hits two objects at the same
/// parameter.
pub proof fn lemma_traced_order_independent(
    a: Seq<Sphere>,
    b: Seq<Sphere>,
    ray: Ray,
    t_min: Fixed,
    t_max: Fixed,
    depth: nat,
    offsets: Seq<Vec3>,
)
    requires
        a.to_multiset() == b.to_multiset(),
        forall|r: Ray| tie_free(#[trigger] candidates(a, r, t_min, t_max)),
    ensures
        traced_along(a, ray, t_min, t_max, depth, offsets) == traced_along(
            b,
            ray,
            t_min,
            t_max,
            depth,
            offsets,
        ),
    decreases depth,
{
    assert(tie_free(candidates(a, ray, t_min, t_max)));
    lemma_same_nearest_hit(a, b, ray, t_min, t_max);
    match closest_of(a, ray, t_min, t_max) {
        None => {},
        Some(hit) => {
            if depth > 0 && offsets.len() > 0 {
                match Lambertian::bounce_spec(hit, offsets[0]) {
                    Err(_) => {},
                    Ok(next) => {
                        lemma_traced_order_independent(
                            a,
                            b,
                            next,
                            t_min,
                            t_max,
                            (depth - 1) as nat,
                            offsets.drop_first(),
                        );
                    },
                }
            }
        },
    }
}

/// Every channel of `color` lies in `[0, 1]`.
pub open spec fn in_unit_range(color: Vec3) -> bool {
    &&& 0 <= color.x@ <= ONE_RAW
    &&& 0 <= color.y@ <= ONE_RAW
    &&& 0 <= color.z@ <= ONE_RAW
}

/// What one bounce leaves of a colour: half of it.
pub open spec fn attenuate_spec(color: Vec3) -> Vec3 {
    color.scaled(Fixed::saturating(HALF_RAW as int))
}

/// What a ray sees that hit a surface and bounced: black where the bounce
/// has no direction, else what is left of the colour `traced` that the
/// bounced ray gathered.
pub open spec fn shade_spec(bounce: Result<Ray, DegenerateVectorError>, traced: Vec3) -> Vec3 {
    match bounce {
        Err(_) => Vec3::zeroes_spec(),
        Ok(_) => attenuate_spec(traced),
    }
}

/// One bounce leaves exactly half of each channel, rounded toward zero.
pub proof fn lemma_attenuate_halves(color: Vec3)
    ensures
        attenuate_spec(color)@ == (
            trunc_div(color.x@, 2),
            trunc_div(color.y@, 2),
            trunc_div(color.z@, 2),
        ),
{
    lemma_product_half(color.x@);
    lemma_product_half(color.y@);
    lemma_product_half(color.z@);
    lemma_trunc_div_bound(color.x@, 2);
    lemma_trunc_div_bound(color.y@, 2);
    lemma_trunc_div_bound(color.z@, 2);
}

/// A scene: its objects, in the order in which a ray is tested against them.
pub struct World {
    world: Vec<Sphere>,
}

impl View for World {
    type V = Seq<Sphere>;

    /// The objects of the scene, in their order.
    closed spec fn view(&self) -> Seq<Sphere> {
        self.world@
    }
}

impl World {
    /// The nearest hit of `ray` in the scene.
    pub open spec fn nearest_hit_spec(&self, ray: Ray, t_min: Fixed, t_max: Fixed) -> Option<Hit> {
        closest_of(self@, ray, t_min, t_max)
    }

    /// `color` is a colour that `ray` may gather with `depth` bounces left.
    /// A ray that hits nothing sees the sky. A ray that hits something with no
    /// bounce left sees black. Else it bounces diffusely off the nearest hit:
    /// where the bounce has no direction it sees black, else half of a colour
    /// that the bounced ray may gather with one bounce less.
    pub open spec fn is_trace_outcome(
        &self,
        ray: Ray,
        t_min: Fixed,
        t_max: Fixed,
        depth: nat,
        color: Vec3,
    ) -> bool
        decreases depth,
    {
        match self.nearest_hit_spec(ray, t_min, t_max) {
            None => color == ambient_spec(ray),
            Some(hit) => if depth == 0 {
                color == Vec3::zeroes_spec()
            } else {
                exists|bounce: Result<Ray, DegenerateVectorError>, traced: Vec3|
                    Lambertian::is_scatter(hit, bounce) && color == #[trigger] shade_spec(
                        bounce,
                        traced,
                    ) && (bounce matches Ok(next) ==> self.is_trace_outcome(
                        next,
                        t_min,
                        t_max,
                        (depth - 1) as nat,
                        traced,
                    ))
            },
        }
    }

    /// One diffuse bounce scales the colour gathered after it by one half:
    /// where `ray` hits, a bounce is left and the bounced ray `next` may
    /// gather `traced`, `ray` may gather half of `traced`.
    pub proof fn lemma_bounce_attenuates(
        &self,
        ray: Ray,
        t_min: Fixed,
        t_max: Fixed,
        depth: nat,
        next: Ray,
        traced: Vec3,
    )
        requires
            depth > 0,
            self.nearest_hit_spec(ray, t_min, t_max) matches Some(hit) && Lambertian::is_scatter(
                hit,
                Ok::<Ray, DegenerateVectorError>(next),
            ),
            self.is_trace_outcome(next, t_min, t_max, (depth - 1) as nat, traced),
        ensures
            self.is_trace_outcome(ray, t_min, t_max, depth, attenuate_spec(traced)),
            attenuate_spec(traced)@ == (
                trunc_div(traced.x@, 2),
                trunc_div(traced.y@, 2),
                trunc_div(traced.z@, 2),
            ),
    {
        let bounce = Ok::<Ray, DegenerateVectorError>(next);
        assert(attenuate_spec(traced) == shade_spec(bounce, traced));
        lemma_attenuate_halves(traced);
    }

    /// Whatever a ray gathers that hits something is black or half of a
    /// colour that a diffuse bounce off the nearest hit may gather with one
    /// bounce less.
    pub proof fn lemma_hit_outcome(
        &self,
        ray: Ray,
        t_min: Fixed,
        t_max: Fixed,
        depth: nat,
        color: Vec3,
    )
        requires
            self.nearest_hit_spec(ray, t_min, t_max) is Some,
            self.is_trace_outcome(ray, t_min, t_max, depth, color),
        ensures
            color == Vec3::zeroes_spec() || (depth > 0 && exists|next: Ray, traced: Vec3|
                #![trigger self.is_trace_outcome(next, t_min, t_max, (depth - 1) as nat, traced)]
                Lambertian::is_scatter(
                    self.nearest_hit_spec(ray, t_min, t_max)->0,
                    Ok::<Ray, DegenerateVectorError>(next),
                ) && self.is_trace_outcome(next, t_min, t_max, (depth - 1) as nat, traced) && color
                    == attenuate_spec(traced)),
    {
        if depth > 0 {
            let hit = self.nearest_hit_spec(ray, t_min, t_max)->0;
            let (bounce, traced) = choose|bounce: Result<Ray, DegenerateVectorError>, traced: Vec3|
                Lambertian::is_scatter(hit, bounce) && color == #[trigger] shade_spec(bounce, traced)
                    && (bounce matches Ok(next) ==> self.is_trace_outcome(
                    next,
                    t_min,
                    t_max,
                    (depth - 1) as nat,
                    traced,
                ));
            if let Ok(next) = bounce {
                assert(self.is_trace_outcome(next, t_min, t_max, (depth - 1) as nat, traced));
            }
        }
    }

    /// A ray that hits a surface whose normal is at least one long, with a
    /// bounce left, always bounces: whatever it gathers is half of a colour
    /// that its bounce may gather with one bounce less.
    pub proof fn lemma_full_normal_outcome(
        &self,
        ray: Ray,
        t_min: Fixed,
        t_max: Fixed,
        depth: nat,
        color: Vec3,
    )
        requires
            depth > 0,
            self.nearest_hit_spec(ray, t_min, t_max) matches Some(hit)
                && Lambertian::has_full_normal(hit),
            self.is_trace_outcome(ray, t_min, t_max, depth, color),
        ensures
            exists|next: Ray, traced: Vec3|
                #![trigger self.is_trace_outcome(next, t_min, t_max, (depth - 1) as nat, traced)]
                Lambertian::is_scatter(
                    self.nearest_hit_spec(ray, t_min, t_max)->0,
                    Ok::<Ray, DegenerateVectorError>(next),
                ) && self.is_trace_outcome(next, t_min, t_max, (depth - 1) as nat, traced) && color
                    == attenuate_spec(traced),
    {
        let hit = self.nearest_hit_spec(ray, t_min, t_max)->0;
        let (bounce, traced) = choose|bounce: Result<Ray, DegenerateVectorError>, traced: Vec3|
            Lambertian::is_scatter(hit, bounce) && color == #[trigger] shade_spec(bounce, traced)
                && (bounce matches Ok(next) ==> self.is_trace_outcome(
                next,
                t_min,
                t_max,
                (depth - 1) as nat,
                traced,
            ));
        Lambertian::lemma_scatter_defined(hit, bounce);
        let next = bounce->Ok_0;
        assert(self.is_trace_outcome(next, t_min, t_max, (depth - 1) as nat, traced));
    }

    /// Every channel of a traced colour lies in `[0, 1]`.
    pub proof fn lemma_trace_in_range(
        &self,
        ray: Ray,
        t_min: Fixed,
        t_max: Fixed,
        depth: nat,
        color: Vec3,
    )
        requires
            self.is_trace_outcome(ray, t_min, t_max, depth, color),
        ensures
            in_unit_range(color),
        decreases depth,
    {
        if self.nearest_hit_spec(ray, t_min, t_max) is None {
            lemma_ambient_between(ray);
        } else if depth > 0 {
            let hit = self.nearest_hit_spec(ray, t_min, t_max)->0;
            let (bounce, traced) = choose|bounce: Result<Ray, DegenerateVectorError>, traced: Vec3|
                Lambertian::is_scatter(hit, bounce) && color == #[trigger] shade_spec(bounce, traced)
                    && (bounce matches Ok(next) ==> self.is_trace_outcome(
                    next,
                    t_min,
                    t_max,
                    (depth - 1) as nat,
                    traced,
                ));
            if let Ok(next) = bounce {
                self.lemma_trace_in_range(next, t_min, t_max, (depth - 1) as nat, traced);
                lemma_attenuate_halves(traced);
                lemma_trunc_div_bound(traced.x@, 2);
                lemma_trunc_div_bound(traced.y@, 2);
                lemma_trunc_div_bound(traced.z@, 2);
            }
        }
    }

    /// The scene of the given objects.
    pub fn new(spheres: Vec<Sphere>) -> (r: World)
        ensures
            r@ == spheres@,
    {
        World { world: spheres }
    }

    /// The nearest hit of `ray` among the objects of the scene, each tested
    /// within `(t_min, t_max)`. Of two objects hit at the same parameter the
    /// earlier one is reported.
    pub fn nearest_hit(&self, ray: &Ray, t_min: Fixed, t_max: Fixed) -> (r: Option<Hit>)
        ensures
            r == self.nearest_hit_spec(*ray, t_min, t_max),
            r is None <==> forall|j: int|
                0 <= j < self@.len() ==> (#[trigger] candidates(self@, *ray, t_min, t_max)[j])
                    is None,
            r is Some ==> exists|i: int|
                is_nearest(candidates(self@, *ray, t_min, t_max), i) && #[trigger] candidates(
                    self@,
                    *ray,
                    t_min,
                    t_max,
                )[i] == r,
            r matches Some(h) ==> t_min@ < h.t@ < t_max@ && h.point == ray.point_at(h.t),
    {
        let mut first_hit: Option<Hit> = None;
        let mut i: usize = 0;
        while i < self.world.len()
            invariant
                i <= self.world.len(),
                first_hit == closest(candidates(self.world@, *ray, t_min, t_max).take(i as int)),
                first_hit matches Some(h) ==> t_min@ < h.t@ < t_max@ && h.point == ray.point_at(h.t),
            decreases self.world.len() - i,
        {
            proof {
                let found = candidates(self.world@, *ray, t_min, t_max);
                assert(found.take(i + 1).drop_last() =~= found.take(i as int));
            }
            match self.world[i].is_hit_by(t_min, t_max, ray) {
                None => {},
                Some(hit) => {
                    match first_hit {
                        None => {
                            first_hit = Some(hit);
                        },
                        Some(kept) => {
                            if hit.t.raw < kept.t.raw {
                                first_hit = Some(hit);
                            }
                        },
                    }
                },
            }
            i = i + 1;
        }
        proof {
            let found = candidates(self.world@, *ray, t_min, t_max);
            assert(found.take(i as int) =~= found);
            lemma_closest_is_nearest(found);
        }
        first_hit
    }

    /// The colour that `ray` gathers in the scene, with at most `depth`
    /// bounces: the sky where it hits nothing, black where it still hits
    /// something with no bounce left, and else half of what its bounce
    /// gathers. It is the colour that the ray gathers along the offsets that
    /// were drawn for its bounces.
    pub fn trace(&self, ray: &Ray, t_min: Fixed, t_max: Fixed, rng: &mut StdRng, depth: u32) -> (color:
        Vec3)
        ensures
            self.is_trace_outcome(*ray, t_min, t_max, depth as nat, color),
            exists|offsets: Seq<Vec3>|
                are_draws(offsets) && offsets.len() <= depth && color == #[trigger] traced_along(
                    self@,
                    *ray,
                    t_min,
                    t_max,
                    depth as nat,
                    offsets,
                ),
            self.nearest_hit_spec(*ray, t_min, t_max) is None ==> color == ambient_spec(*ray),
            self.nearest_hit_spec(*ray, t_min, t_max) is Some && depth == 0 ==> color
                == Vec3::zeroes_spec(),
            in_unit_range(color),
        decreases depth,
    {
        match self.nearest_plain(ray, t_min, t_max) {
            None => {
                proof {
                    let none = Seq::<Vec3>::empty();
                    assert(are_draws(none) && ambient_spec(*ray) == traced_along(
                        self@,
                        *ray,
                        t_min,
                        t_max,
                        depth as nat,
                        none,
                    ));
                }
                World::ray_to_ambient_color_vec(ray)
            },
            Some(hit) => {
                if depth == 0 {
                    proof {
                        let none = Seq::<Vec3>::empty();
                        assert(are_draws(none) && Vec3::zeroes_spec() == traced_along(
                            self@,
                            *ray,
                            t_min,
                            t_max,
                            depth as nat,
                            none,
                        ));
                    }
                    return Vec3::zeroes();
                }
                let bounce = World::get_diffuse_reflection(&hit, rng);
                let ghost offset = choose|offset: Vec3|
                    inside_unit_sphere(offset) && is_draw(offset) && bounce
                        == #[trigger] Lambertian::bounce_spec(hit, offset);
                match bounce {
                    Err(_) => {
                        proof {
                            assert(Vec3::zeroes_spec() == shade_spec(bounce, Vec3::zeroes_spec()));
                            let one = seq![offset];
                            assert(one[0] == offset);
                            assert(Lambertian::bounce_spec(hit, one[0]) is Err);
                            assert(are_draws(one) && Vec3::zeroes_spec() == traced_along(
                                self@,
                                *ray,
                                t_min,
                                t_max,
                                depth as nat,
                                one,
                            ));
                        }
                        Vec3::zeroes()
                    },
                    Ok(reflection) => {
                        let traced = self.trace(&reflection, t_min, t_max, rng, depth - 1);
                        proof {
                            assert(self.is_trace_outcome(
                                reflection,
                                t_min,
                                t_max,
                                (depth as nat - 1) as nat,
                                traced,
                            ));
                            assert(attenuate_spec(traced) == shade_spec(bounce, traced));
                            lemma_trunc_div_bound(traced.x@, 2);
                            lemma_trunc_div_bound(traced.y@, 2);
                            lemma_trunc_div_bound(traced.z@, 2);
                            let rest = choose|rest: Seq<Vec3>|
                                are_draws(rest) && rest.len() <= depth - 1 && traced
                                    == #[trigger] traced_along(
                                    self@,
                                    reflection,
                                    t_min,
                                    t_max,
                                    (depth - 1) as nat,
                                    rest,
                                );
                            let all = seq![offset] + rest;
                            assert(all[0] == offset);
                            assert(all.drop_first() =~= rest);
                            assert(Lambertian::bounce_spec(hit, all[0]) == bounce);
                            assert forall|i: int| 0 <= i < all.len() implies inside_unit_sphere(
                                #[trigger] all[i],
                            ) && is_draw(all[i]) by {
                                if i > 0 {
                                    assert(all[i] == rest[i - 1]);
                                }
                            }
                            assert(are_draws(all));
                            assert(attenuate_spec(traced) == traced_along(
                                self@,
                                *ray,
                                t_min,
                                t_max,
                                depth as nat,
                                all,
                            ));
                        }
                        World::attenuate(traced)
                    },
                }
            },
        }
    }

    /// The colour that `ray` gathers in the scene when its bounces take the
    /// given offsets in place of drawn ones, one a bounce, in their order.
    pub fn trace_along(
        &self,
        ray: &Ray,
        t_min: Fixed,
        t_max: Fixed,
        depth: u32,
        offsets: &Vec<Vec3>,
    ) -> (color: Vec3)
        ensures
            color == traced_along(self@, *ray, t_min, t_max, depth as nat, offsets@),
    {
        proof {
            assert(offsets@.skip(0) =~= offsets@);
        }
        self.trace_from(ray, t_min, t_max, depth, offsets, 0)
    }

    /// The nearest hit, with no more said of it than which it is.
    fn nearest_plain(&self, ray: &Ray, t_min: Fixed, t_max: Fixed) -> (r: Option<Hit>)
        ensures
            r == closest_of(self@, *ray, t_min, t_max),
    {
        self.nearest_hit(ray, t_min, t_max)
    }

    /// As `trace_along`, with the offsets from index `start` on.
    fn trace_from(
        &self,
        ray: &Ray,
        t_min: Fixed,
        t_max: Fixed,
        depth: u32,
        offsets: &Vec<Vec3>,
        start: usize,
    ) -> (color: Vec3)
        requires
            start <= offsets@.len(),
        ensures
            color == traced_along(
                self@,
                *ray,
                t_min,
                t_max,
                depth as nat,
                offsets@.skip(start as int),
            ),
        decreases depth,
    {
        match self.nearest_plain(ray, t_min, t_max) {
            None => World::ray_to_ambient_color_vec(ray),
            Some(hit) => {
                if depth == 0 || start >= offsets.len() {
                    return Vec3::zeroes();
                }
                let ghost rest = offsets@.skip(start as int);
                let bounce = Lambertian::bounce(&hit, offsets[start]);
                proof {
                    assert(rest[0] == offsets@[start as int]);
                    assert(Lambertian::bounce_spec(hit, rest[0]) == bounce);
                }
                match bounce {
                    Err(_) => Vec3::zeroes(),
                    Ok(next) => {
                        let traced = self.trace_from(&next, t_min, t_max, depth - 1, offsets, start + 1);
                        proof {
                            assert(offsets@.skip(start as int).drop_first() =~= offsets@.skip(
                                start + 1,
                            ));
                        }
                        World::attenuate(traced)
                    },
                }
            },
        }
    }

    /// The diffuse bounce off `hit`, toward a random point of the unit sphere
    /// that touches the surface there.
    pub fn get_diffuse_reflection(hit: &Hit, rng: &mut StdRng) -> (r: Result<
        Ray,
        DegenerateVectorError,
    >)
        ensures
            Lambertian::is_scatter(*hit, r),
            Lambertian::has_full_normal(*hit) ==> r is Ok,
            r matches Ok(ray) ==> ray.origin == hit.point && ONE_RAW - 16
                <= ray.direction.length_spec()@ <= ONE_RAW,
    {
        let offset = World::random_in_unit_sphere(rng);
        Lambertian::bounce(hit, offset)
    }

    /// The colour of the sky that `ray` sees where it hits nothing.
    pub fn ray_to_ambient_color_vec(ray: &Ray) -> (color: Vec3)
        ensures
            color == ambient_spec(*ray),
            ray.direction@ == (0int, 0int, 0int) ==> color == Vec3::zeroes_spec(),
            ray.direction@ != (0int, 0int, 0int) ==> HALF_RAW <= color.x@ <= ONE_RAW
                && SKY_GREEN_RAW <= color.y@ <= ONE_RAW && color.z@ == ONE_RAW,
    {
        proof {
            reveal(ambient_spec);
            lemma_ambient_between(*ray);
        }
        match ray.direction.make_unit_vector() {
            Err(_) => Vec3::zeroes(),
            Ok(unit) => {
                let t = Fixed::from_raw(HALF_RAW) * (unit.y + Fixed::one());
                let sky_blue = Vec3::new(
                    Fixed::from_raw(HALF_RAW),
                    Fixed::from_raw(SKY_GREEN_RAW),
                    Fixed::one(),
                );
                (Fixed::one() - t) * sky_blue + t * Vec3::ones()
            },
        }
    }

    /// Half of `color`: what one bounce leaves of the colour gathered after it.
    pub fn attenuate(color: Vec3) -> (r: Vec3)
        ensures
            r == attenuate_spec(color),
            r@ == (trunc_div(color.x@, 2), trunc_div(color.y@, 2), trunc_div(color.z@, 2)),
    {
        proof {
            lemma_attenuate_halves(color);
        }
        Fixed::from_raw(HALF_RAW) * color
    }

    /// A random point strictly inside the unit sphere.
    pub fn random_in_unit_sphere(rng: &mut StdRng) -> (p: Vec3)
        ensures
            inside_unit_sphere(p),
            is_draw(p),
            exists|draws: Seq<(u32, u32, u32)>| is_settled(draws, p),
    {
        Lambertian::random_in_unit_sphere(rng)
    }
}

} // verus!

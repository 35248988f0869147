//! Materials: how a surface sends an arriving ray on.
//!
//! The one material is the diffuse one. It sends a ray on from the point it
//! hit toward a random point of the unit sphere that touches the surface there.

use crate::fixed::{lemma_product_two, Fixed, ONE_RAW};
use crate::hit::Hit;
use crate::random::{next_bits, unit_fraction};
use crate::ray::Ray;
use crate::unit_length::lemma_unit_vector_length;
use crate::vec3::{DegenerateVectorError, Vec3};
use rand::rngs::StdRng;
use vstd::prelude::*;

verus! {

/// How often a point is drawn before the centre is taken instead.
pub const MAX_DRAWS: u32 = 64;

/// `p` lies strictly inside the unit sphere round the origin.
pub open spec fn inside_unit_sphere(p: Vec3) -> bool {
    p.squared_length_spec()@ < ONE_RAW
}

/// The point of the cube `[-1, 1)^3` whose coordinates are `2 f - 1` for the
/// fractions `f` in `[0, 1)` that the three bit patterns stand for.
pub open spec fn cube_point_spec(bx: u32, by: u32, bz: u32) -> Vec3 {
    Vec3::saturating(bx as int, by as int, bz as int).scaled(
        Fixed::saturating(2 * ONE_RAW),
    ).minus(Vec3::ones_spec())
}

/// `p` is a point that a draw may give: a point of the cube for some three
/// bit patterns, or the centre.
pub open spec fn is_draw(p: Vec3) -> bool {
    p == Vec3::zeroes_spec() || exists|bx: u32, by: u32, bz: u32|
        p == #[trigger] cube_point_spec(bx, by, bz)
}

/// Maps three draws of 32 bits to a point of the cube `[-1, 1)^3`.
pub fn cube_point(bx: u32, by: u32, bz: u32) -> (p: Vec3)
    ensures
        p == cube_point_spec(bx, by, bz),
        p@ == (2 * bx - ONE_RAW, 2 * by - ONE_RAW, 2 * bz - ONE_RAW),
{
    proof {
        lemma_product_two(bx as int);
        lemma_product_two(by as int);
        lemma_product_two(bz as int);
    }
    let f = Vec3::new(unit_fraction(bx), unit_fraction(by), unit_fraction(bz));
    Fixed::from_int(2) * f - Vec3::ones()
}

/// Whether `p` lies strictly inside the unit sphere: whether its squared
/// length is less than one.
pub fn is_inside_unit_sphere(p: &Vec3) -> (r: bool)
    ensures
        r == inside_unit_sphere(*p),
{
    p.squared_length().raw < ONE_RAW
}

/// The point of the cube that a draw of three bit patterns stands for.
pub open spec fn cube_point_of(draw: (u32, u32, u32)) -> Vec3 {
    cube_point_spec(draw.0, draw.1, draw.2)
}

/// Draw `k` is the first of `draws` whose point lies strictly inside the
/// unit sphere.
pub open spec fn is_first_inside(draws: Seq<(u32, u32, u32)>, k: int) -> bool {
    &&& 0 <= k < draws.len()
    &&& inside_unit_sphere(cube_point_of(draws[k]))
    &&& forall|j: int| 0 <= j < k ==> !inside_unit_sphere(#[trigger] cube_point_of(draws[j]))
}

/// No point of `draws` lies strictly inside the unit sphere.
pub open spec fn none_inside(draws: Seq<(u32, u32, u32)>) -> bool {
    forall|j: int| 0 <= j < draws.len() ==> !inside_unit_sphere(#[trigger] cube_point_of(draws[j]))
}

/// `p` is the point that drawing ends with after `draws`, three bit
/// patterns a draw: the point of the last draw, the first one that lies
/// strictly inside the unit sphere; or the centre, after `MAX_DRAWS` draws
/// of which none does.
pub open spec fn is_settled(draws: Seq<(u32, u32, u32)>, p: Vec3) -> bool {
    ||| is_first_inside(draws, draws.len() - 1) && draws.len() <= MAX_DRAWS && p == cube_point_of(
        draws.last(),
    )
    ||| draws.len() == MAX_DRAWS && none_inside(draws) && p == Vec3::zeroes_spec()
}

/// The first of `draws` whose point lies strictly inside the unit sphere:
/// its index and its point. There is none where no point lies inside.
pub fn first_inside(draws: &Vec<(u32, u32, u32)>) -> (r: Option<(usize, Vec3)>)
    ensures
        match r {
            Some((k, p)) => is_first_inside(draws@, k as int) && p == cube_point_of(draws@[k as int]),
            None => none_inside(draws@),
        },
{
    let mut k: usize = 0;
    while k < draws.len()
        invariant
            k <= draws.len(),
            forall|j: int| 0 <= j < k ==> !inside_unit_sphere(#[trigger] cube_point_of(draws@[j])),
        decreases draws.len() - k,
    {
        let draw = draws[k];
        let point = cube_point(draw.0, draw.1, draw.2);
        if is_inside_unit_sphere(&point) {
            return Some((k, point));
        }
        k = k + 1;
    }
    None
}

/// A surface material: it turns a hit into the ray that leaves the surface.
pub trait Material {
    /// The ray that leaves the surface at `hit`. It starts at the point that
    /// was hit; there is none where the direction drawn is the zero vector.
    fn scatter(&self, hit: &Hit, t_min: Fixed, t_max: Fixed, rng: &mut StdRng) -> (r: Result<
        Ray,
        DegenerateVectorError,
    >)
        ensures
            r matches Ok(ray) ==> ray.origin == hit.point,
    ;
}

/// The diffuse material.
#[derive(Clone, Copy, Debug, PartialEq, Eq, Structural)]
pub struct Lambertian {}

impl Lambertian {
    /// The ray that leaves `hit` toward `hit.point + hit.normal + offset`: it
    /// starts at the point that was hit, and its direction is the unit vector
    /// of `hit.normal + offset`, which leads from there to the target. There
    /// is none where the offset is the opposite of the normal.
    #[verifier::opaque]
    pub open spec fn bounce_spec(hit: Hit, offset: Vec3) -> Result<Ray, DegenerateVectorError> {
        match hit.normal.plus(offset).unit_spec() {
            Ok(direction) => Ok(Ray { origin: hit.point, direction }),
            Err(e) => Err(e),
        }
    }

    /// The normal of `hit` is at least one long. The normal of a surface is
    /// one long but for rounding.
    pub open spec fn has_full_normal(hit: Hit) -> bool {
        hit.normal.squared_length_spec()@ >= ONE_RAW
    }

    /// A hit whose normal is at least one long has a bounce for every offset
    /// strictly inside the unit sphere: the offset is shorter than the
    /// normal, so it cannot be its opposite.
    pub proof fn lemma_bounce_defined(hit: Hit, offset: Vec3)
        requires
            Lambertian::has_full_normal(hit),
            inside_unit_sphere(offset),
        ensures
            Lambertian::bounce_spec(hit, offset) is Ok,
    {
        reveal(Lambertian::bounce_spec);
        let n = hit.normal;
        if n.plus(offset)@ == (0int, 0int, 0int) {
            assert(offset.x@ == -n.x@ && offset.y@ == -n.y@ && offset.z@ == -n.z@);
            assert(offset.x@ * offset.x@ == n.x@ * n.x@ && offset.y@ * offset.y@ == n.y@ * n.y@
                && offset.z@ * offset.z@ == n.z@ * n.z@) by (nonlinear_arith)
                requires
                    offset.x@ == -n.x@ && offset.y@ == -n.y@ && offset.z@ == -n.z@,
            ;
            assert(offset.squared_length_spec() == n.squared_length_spec());
        } else {
            lemma_unit_vector_length(n.plus(offset));
        }
    }

    /// A hit whose normal is at least one long always scatters.
    pub proof fn lemma_scatter_defined(hit: Hit, r: Result<Ray, DegenerateVectorError>)
        requires
            Lambertian::has_full_normal(hit),
            Lambertian::is_scatter(hit, r),
        ensures
            r is Ok,
    {
        let offset = choose|offset: Vec3|
            inside_unit_sphere(offset) && is_draw(offset) && r == #[trigger] Lambertian::bounce_spec(
                hit,
                offset,
            );
        Lambertian::lemma_bounce_defined(hit, offset);
    }

    /// `r` is a diffuse bounce off `hit`: the bounce for some offset inside
    /// the unit sphere.
    pub open spec fn is_scatter(hit: Hit, r: Result<Ray, DegenerateVectorError>) -> bool {
        exists|offset: Vec3|
            inside_unit_sphere(offset) && is_draw(offset) && r == #[trigger] Lambertian::bounce_spec(
                hit,
                offset,
            )
    }

    /// The diffuse material.
    pub fn new() -> (r: Lambertian)
        ensures
            r == (Lambertian {  }),
    {
        Lambertian {  }
    }

    /// Draws a point strictly inside the unit sphere: points of the cube
    /// `[-1, 1)^3` are drawn, three bit patterns a point, until one lies
    /// inside, and that one is returned. After `MAX_DRAWS` points outside,
    /// the centre is returned.
    pub fn random_in_unit_sphere(rng: &mut StdRng) -> (p: Vec3)
        ensures
            inside_unit_sphere(p),
            is_draw(p),
            exists|draws: Seq<(u32, u32, u32)>| is_settled(draws, p),
    {
        let mut draws: Vec<(u32, u32, u32)> = Vec::new();
        while draws.len() < MAX_DRAWS as usize
            invariant
                draws@.len() <= MAX_DRAWS,
                none_inside(draws@),
            decreases MAX_DRAWS - draws@.len(),
        {
            let bx = next_bits(rng);
            let by = next_bits(rng);
            let bz = next_bits(rng);
            draws.push((bx, by, bz));
            match first_inside(&draws) {
                Some((k, point)) => {
                    proof {
                        assert(k == draws@.len() - 1) by {
                            if k < draws@.len() - 1 {
                                assert(draws@.drop_last()[k as int] == draws@[k as int]);
                            }
                        }
                        assert(is_settled(draws@, point));
                    }
                    return point;
                },
                None => {},
            }
        }
        proof {
            assert(is_settled(draws@, Vec3::zeroes_spec()));
        }
        Vec3::zeroes()
    }

    /// The diffuse bounce off `hit` toward `hit.point + hit.normal + offset`.
    /// It fails only where the offset is the opposite of the normal, and so
    /// never for an offset strictly inside the unit sphere and a normal at
    /// least one long. The direction of the bounce is one long, up to `16 * 2^-32`.
    pub fn bounce(hit: &Hit, offset: Vec3) -> (r: Result<Ray, DegenerateVectorError>)
        ensures
            r == Lambertian::bounce_spec(*hit, offset),
            r is Err <==> hit.normal.plus(offset)@ == (0int, 0int, 0int),
            Lambertian::has_full_normal(*hit) && inside_unit_sphere(offset) ==> r is Ok,
            r matches Ok(ray) ==> ray.origin == hit.point && ONE_RAW - 16
                <= ray.direction.length_spec()@ <= ONE_RAW,
    {
        proof {
            reveal(Lambertian::bounce_spec);
            if Lambertian::has_full_normal(*hit) && inside_unit_sphere(offset) {
                Lambertian::lemma_bounce_defined(*hit, offset);
            }
        }
        match (hit.normal + offset).make_unit_vector() {
            Ok(direction) => Ok(Ray::new(hit.point, direction)),
            Err(e) => Err(e),
        }
    }
}

impl Material for Lambertian {
    fn scatter(&self, hit: &Hit, t_min: Fixed, t_max: Fixed, rng: &mut StdRng) -> (r: Result<
        Ray,
        DegenerateVectorError,
    >)
        ensures
            Lambertian::is_scatter(*hit, r),
            Lambertian::has_full_normal(*hit) ==> r is Ok,
            r matches Ok(ray) ==> ONE_RAW - 16 <= ray.direction.length_spec()@ <= ONE_RAW,
    {
        let offset = Lambertian::random_in_unit_sphere(rng);
        Lambertian::bounce(hit, offset)
    }
}

} // verus!

//! Intersection records and the capability of being hit by a ray.

use crate::fixed::Fixed;
use crate::ray::Ray;
use crate::vec3::Vec3;
use vstd::prelude::*;

verus! {

/// Where a ray meets a surface: the point, the surface normal there, which
/// points away from the interior, and the ray parameter of the point.
#[derive(Clone, Copy, Debug, PartialEq, Eq, Structural)]
pub struct Hit {
    pub point: Vec3,
    pub normal: Vec3,
    pub t: Fixed,
}

impl Hit {
    /// The record of a hit at `point`, with the normal `normal`, at parameter `t`.
    pub fn new(point: Vec3, normal: Vec3, t: Fixed) -> (r: Hit)
        ensures
            r == (Hit { point, normal, t }),
    {
        Hit { point, normal, t }
    }
}

/// A shape that a ray can be tested against.
pub trait Hitable {
    /// The intersection that the shape reports for `ray` within `(t_min, t_max)`.
    spec fn hit_spec(&self, t_min: Fixed, t_max: Fixed, ray: &Ray) -> Option<Hit>;

    /// Tests `ray` against the shape. A reported hit has its parameter
    /// strictly inside `(t_min, t_max)` and its point on the ray at that parameter.
    fn is_hit_by(&self, t_min: Fixed, t_max: Fixed, ray: &Ray) -> (r: Option<Hit>)
        ensures
            r == self.hit_spec(t_min, t_max, ray),
            r matches Some(h) ==> t_min@ < h.t@ < t_max@ && h.point == ray.point_at(h.t),
    ;
}

} // verus!

//! Rays: half-lines given by an origin and a direction.

use crate::fixed::Fixed;
use crate::vec3::Vec3;
use vstd::prelude::*;

verus! {

/// The points `origin + t * direction`. The direction need not have length
/// one, so a parameter `t` is measured in multiples of its length.
#[derive(Clone, Copy, Debug, PartialEq, Eq, Structural)]
pub struct Ray {
    pub origin: Vec3,
    pub direction: Vec3,
}

impl Ray {
    /// The point of the ray at parameter `t`.
    pub open spec fn point_at(self, t: Fixed) -> Vec3 {
        self.origin.plus(self.direction.scaled(t))
    }

    /// The ray from `origin` along `direction`.
    pub fn new(origin: Vec3, direction: Vec3) -> (r: Ray)
        ensures
            r == (Ray { origin, direction }),
    {
        Ray { origin, direction }
    }

    /// The point of the ray at parameter `t`: `origin + t * direction`.
    pub fn point_at_time_t(self, t: Fixed) -> (p: Vec3)
        ensures
            p == self.point_at(t),
    {
        self.origin + t * self.direction
    }
}

} // verus!

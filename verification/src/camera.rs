//! The camera: an eye point and a rectangular viewport in front of it.

use crate::fixed::{lemma_product_one, Fixed, ONE_RAW};
use crate::ray::Ray;
use crate::vec3::Vec3;
use vstd::prelude::*;

verus! {

/// The viewport is the rectangle spanned by `horizontal` and `vertical` from
/// its corner `lower_left`; rays start at `origin`.
#[derive(Debug)]
pub struct Camera {
    origin: Vec3,
    lower_left: Vec3,
    vertical: Vec3,
    horizontal: Vec3,
}

impl Camera {
    /// The eye point.
    pub closed spec fn origin(&self) -> Vec3 {
        self.origin
    }

    /// The lower left corner of the viewport.
    pub closed spec fn lower_left(&self) -> Vec3 {
        self.lower_left
    }

    /// The vector along the lower edge of the viewport.
    pub closed spec fn horizontal(&self) -> Vec3 {
        self.horizontal
    }

    /// The vector along the left edge of the viewport.
    pub closed spec fn vertical(&self) -> Vec3 {
        self.vertical
    }

    /// The camera with the given eye point and viewport.
    pub closed spec fn with(origin: Vec3, lower_left: Vec3, horizontal: Vec3, vertical: Vec3) -> Camera {
        Camera { origin, lower_left, vertical, horizontal }
    }

    /// The parts of a camera are those that it was made with.
    pub proof fn lemma_with(origin: Vec3, lower_left: Vec3, horizontal: Vec3, vertical: Vec3)
        ensures
            Camera::with(origin, lower_left, horizontal, vertical).origin() == origin,
            Camera::with(origin, lower_left, horizontal, vertical).lower_left() == lower_left,
            Camera::with(origin, lower_left, horizontal, vertical).horizontal() == horizontal,
            Camera::with(origin, lower_left, horizontal, vertical).vertical() == vertical,
    {
    }

    /// The point of the viewport at the coordinates `(u, v)`, which run from
    /// `(0, 0)` in the lower left corner to `(1, 1)` in the upper right one.
    pub open spec fn viewport_point(&self, u: Fixed, v: Fixed) -> Vec3 {
        self.lower_left().plus(self.horizontal().scaled(u)).plus(self.vertical().scaled(v))
    }

    /// The ray from the eye through the viewport point at `(u, v)`.
    pub open spec fn ray_spec(&self, u: Fixed, v: Fixed) -> Ray {
        Ray { origin: self.origin(), direction: self.viewport_point(u, v).minus(self.origin()) }
    }

    /// The camera with the given eye point and viewport.
    pub fn new(origin: Vec3, lower_left: Vec3, horizontal: Vec3, vertical: Vec3) -> (r: Camera)
        ensures
            r == Camera::with(origin, lower_left, horizontal, vertical),
            r.origin() == origin,
            r.lower_left() == lower_left,
            r.horizontal() == horizontal,
            r.vertical() == vertical,
    {
        Camera { origin, lower_left, vertical, horizontal }
    }

    /// The ray through the viewport at `(u, v)`. At `(0, 0)` it points at the
    /// lower left corner and at `(1, 1)` at the opposite one, exactly.
    pub fn get_ray(&self, u: Fixed, v: Fixed) -> (r: Ray)
        ensures
            r == self.ray_spec(u, v),
            r.origin == self.origin(),
            u@ == 0 && v@ == 0 ==> r.direction == self.lower_left().minus(self.origin()),
            u@ == ONE_RAW && v@ == ONE_RAW ==> r.direction == self.lower_left().plus(
                self.horizontal(),
            ).plus(self.vertical()).minus(self.origin()),
    {
        proof {
            lemma_product_one(self.horizontal.x@);
            lemma_product_one(self.horizontal.y@);
            lemma_product_one(self.horizontal.z@);
            lemma_product_one(self.vertical.x@);
            lemma_product_one(self.vertical.y@);
            lemma_product_one(self.vertical.z@);
        }
        Ray::new(
            self.origin,
            self.lower_left + u * self.horizontal + v * self.vertical - self.origin,
        )
    }
}

} // verus!

//! Spheres and their intersection with rays.

use crate::fixed::Fixed;
use crate::hit::{Hit, Hitable};
use crate::ray::Ray;
use crate::vec3::{dot, dot_spec, Vec3};
use core::ops::Neg;
use vstd::prelude::*;

verus! {

/// A sphere, given by its centre and its radius.
#[derive(Clone, Copy, Debug, PartialEq, Eq, Structural)]
pub struct Sphere {
    pub center: Vec3,
    pub radius: Fixed,
}

impl Sphere {
    /// A sphere has a positive radius.
    pub open spec fn wf(&self) -> bool {
        self.radius@ > 0
    }

    /// The vector from the centre to the origin of `ray`.
    pub open spec fn offset(&self, ray: &Ray) -> Vec3 {
        ray.origin.minus(self.center)
    }

    /// The coefficient `a` of the quadratic `a t^2 + 2 b t + c` whose roots
    /// are the parameters at which `ray` meets the sphere.
    pub open spec fn quad_a(&self, ray: &Ray) -> Fixed {
        dot_spec(ray.direction, ray.direction)
    }

    /// The coefficient `b` of that quadratic.
    pub open spec fn quad_b(&self, ray: &Ray) -> Fixed {
        dot_spec(self.offset(ray), ray.direction)
    }

    /// The coefficient `c` of that quadratic.
    pub open spec fn quad_c(&self, ray: &Ray) -> Fixed {
        dot_spec(self.offset(ray), self.offset(ray)).minus(self.radius.times(self.radius))
    }

    /// The discriminant `b^2 - a c`.
    pub open spec fn discriminant(&self, ray: &Ray) -> Fixed {
        self.quad_b(ray).times(self.quad_b(ray)).minus(self.quad_a(ray).times(self.quad_c(ray)))
    }

    /// The smaller root `(-b - sqrt(disc)) / a`.
    pub open spec fn near_root(&self, ray: &Ray) -> Fixed {
        self.quad_b(ray).negated().minus(self.discriminant(ray).sqrt_spec()).over(self.quad_a(ray))
    }

    /// The larger root `(-b + sqrt(disc)) / a`.
    pub open spec fn far_root(&self, ray: &Ray) -> Fixed {
        self.quad_b(ray).negated().plus(self.discriminant(ray).sqrt_spec()).over(self.quad_a(ray))
    }

    /// The record of `ray` meeting the sphere at parameter `t`: the normal is
    /// the vector from the centre to the point, divided by the radius.
    pub open spec fn hit_at(&self, ray: &Ray, t: Fixed) -> Hit {
        Hit {
            point: ray.point_at(t),
            normal: ray.point_at(t).minus(self.center).divided(self.radius),
            t,
        }
    }

    /// The sphere round `center` with the positive radius `radius`.
    pub fn new(center: Vec3, radius: Fixed) -> (r: Sphere)
        requires
            radius@ > 0,
        ensures
            r == (Sphere { center, radius }),
            r.wf(),
    {
        Sphere { center, radius }
    }

    /// The record of `ray` meeting the sphere at parameter `t`.
    fn record(&self, ray: &Ray, t: Fixed) -> (r: Hit)
        ensures
            r == self.hit_at(ray, t),
    {
        let hit_point = ray.point_at_time_t(t);
        Hit::new(hit_point, (hit_point - self.center) / self.radius, t)
    }
}

impl Hitable for Sphere {
    /// No hit unless the discriminant is positive, so a ray that only touches
    /// the sphere misses it. Else the near root if it lies strictly inside
    /// `(t_min, t_max)`, else the far root if that does, else no hit.
    open spec fn hit_spec(&self, t_min: Fixed, t_max: Fixed, ray: &Ray) -> Option<Hit> {
        if self.discriminant(ray)@ <= 0 {
            None
        } else if t_min@ < self.near_root(ray)@ < t_max@ {
            Some(self.hit_at(ray, self.near_root(ray)))
        } else if t_min@ < self.far_root(ray)@ < t_max@ {
            Some(self.hit_at(ray, self.far_root(ray)))
        } else {
            None
        }
    }

    fn is_hit_by(&self, t_min: Fixed, t_max: Fixed, ray: &Ray) -> (r: Option<Hit>)
        ensures
            self.discriminant(ray)@ <= 0 ==> r is None,
            r matches Some(h) ==> h == self.hit_at(ray, h.t) && (h.t == self.near_root(ray) || h.t
                == self.far_root(ray)),
            r is None <==> self.discriminant(ray)@ <= 0 || (!(t_min@ < self.near_root(ray)@
                < t_max@) && !(t_min@ < self.far_root(ray)@ < t_max@)),
    {
        let oc = ray.origin - self.center;
        let a = dot(&ray.direction, &ray.direction);
        let b = dot(&oc, &ray.direction);
        let c = dot(&oc, &oc) - self.radius * self.radius;
        let discriminant = b * b - a * c;
        if discriminant.raw > 0 {
            let root = discriminant.sqrt();
            let near = (b.neg() - root) / a;
            if near.raw < t_max.raw && near.raw > t_min.raw {
                return Some(self.record(ray, near));
            }
            let far = (b.neg() + root) / a;
            if far.raw < t_max.raw && far.raw > t_min.raw {
                return Some(self.record(ray, far));
            }
        }
        None
    }
}

} // verus!

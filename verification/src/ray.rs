//! A parametric line: origin plus a scaled direction.
use vstd::prelude::*;
use crate::fixed::Fx;
use crate::vector::{Vec3, V3, v3_wf, v3_add, v3_scale};

verus! {

/// Mathematical image of a ray.
pub struct RayV {
    pub origin: V3,
    pub direction: V3,
}

pub open spec fn ray_wf(r: RayV) -> bool {
    v3_wf(r.origin) && v3_wf(r.direction)
}

/// The point reached at parameter `t`: `origin + t * direction`.
pub open spec fn ray_at(r: RayV, t: int) -> V3 {
    v3_add(r.origin, v3_scale(r.direction, t))
}

#[derive(Clone, Copy, Debug, PartialEq, Eq)]
pub struct Ray {
    pub origin: Vec3,
    pub direction: Vec3,
}

impl View for Ray {
    type V = RayV;

    open spec fn view(&self) -> RayV {
        RayV { origin: self.origin@, direction: self.direction@ }
    }
}

impl Ray {
    pub open spec fn wf(self) -> bool {
        ray_wf(self@)
    }

    /// The point at parameter `t`; `t` may be negative, standing for points
    /// behind the origin.
    pub fn at(&self, t: Fx) -> (r: Vec3)
        ensures
            r@ == ray_at(self@, t@),
            r.wf(),
    {
        self.origin.add(self.direction.scale(t))
    }
}

} // verus!

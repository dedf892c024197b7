//! The transient result of an intersection query.
use vstd::prelude::*;
use crate::fixed::{Fx, LIM};
use crate::vector::{Vec3, V3, v3_wf, v3_neg, v3_dot, dot};
use crate::ray::Ray;

verus! {

/// Mathematical image of a hit record. The material is referred to by its
/// index into the scene's material table.
pub struct HitV {
    pub point: V3,
    pub normal: V3,
    pub mat: int,
    pub t: int,
    pub front_face: bool,
}

pub open spec fn hit_wf(h: HitV) -> bool {
    &&& v3_wf(h.point)
    &&& v3_wf(h.normal)
    &&& -(LIM as int) <= h.t <= LIM as int
}

#[derive(Clone, Copy, Debug)]
pub struct HitRecord {
    pub point: Vec3,
    pub normal: Vec3,
    pub mat: usize,
    pub t: Fx,
    pub front_face: bool,
}

impl View for HitRecord {
    type V = HitV;

    open spec fn view(&self) -> HitV {
        HitV {
            point: self.point@,
            normal: self.normal@,
            mat: self.mat as int,
            t: self.t@,
            front_face: self.front_face,
        }
    }
}

impl HitRecord {
    pub open spec fn wf(self) -> bool {
        hit_wf(self@)
    }

    /// Orients the stored normal against the incoming ray: `front_face`
    /// records whether the geometric outward normal already pointed against
    /// the ray, and the stored normal is flipped when it did not.
    pub fn set_face_normal(&mut self, ray: &Ray, outward_normal: &Vec3)
        requires
            ray.wf(),
            outward_normal.wf(),
        ensures
            final(self)@.front_face == (v3_dot(ray@.direction, outward_normal@) < 0),
            final(self)@.normal == (if v3_dot(ray@.direction, outward_normal@) < 0 {
                outward_normal@
            } else {
                v3_neg(outward_normal@)
            }),
            final(self)@.point == old(self)@.point,
            final(self)@.t == old(self)@.t,
            final(self)@.mat == old(self)@.mat,
            v3_wf(final(self)@.normal),
    {
        self.front_face = dot(&ray.direction, outward_normal).lt(Fx::zero());
        self.normal = if self.front_face {
            *outward_normal
        } else {
            outward_normal.neg()
        };
    }
}

} // verus!

//! The pinhole camera: fixed viewport geometry derived once, mapping image
//! plane coordinates in `[0, 1]` to world-space rays.
use vstd::prelude::*;
use crate::fixed::{Fx, from_frac};
use crate::vector::{Vec3, V3, v3_wf, v3_add, v3_sub, v3_scale, v3_divs};
use crate::ray::{Ray, RayV};

verus! {

/// Mathematical image of a camera.
pub struct CamV {
    pub origin: V3,
    pub horizontal: V3,
    pub vertical: V3,
    pub lower_left_corner: V3,
}

pub open spec fn cam_wf(c: CamV) -> bool {
    &&& v3_wf(c.origin)
    &&& v3_wf(c.horizontal)
    &&& v3_wf(c.vertical)
    &&& v3_wf(c.lower_left_corner)
}

/// The fixed default geometry: a 16:9 viewport of height 2 at focal length 1,
/// written with the same arithmetic the constructor performs.
pub open spec fn camera_default() -> CamV {
    let aspect_ratio = crate::fixed::div_bits(16, 9);
    let viewport_height = 2 * crate::fixed::SCALE as int;
    let viewport_width = crate::fixed::mul_bits(aspect_ratio, viewport_height);
    let focal_length = crate::fixed::SCALE as int;
    let origin = V3 { x: 0, y: 0, z: 0 };
    let horizontal = V3 { x: viewport_width, y: 0, z: 0 };
    let vertical = V3 { x: 0, y: viewport_height, z: 0 };
    let two = 2 * crate::fixed::SCALE as int;
    let lower_left_corner = v3_sub(
        v3_sub(v3_sub(origin, v3_divs(horizontal, two)), v3_divs(vertical, two)),
        V3 { x: 0, y: 0, z: focal_length },
    );
    CamV { origin, horizontal, vertical, lower_left_corner }
}

/// The ray through viewport point `(u, v)`:
/// `lower_left_corner + u * horizontal + v * vertical - origin`, from the
/// camera origin.
pub open spec fn cam_ray(c: CamV, u: int, v: int) -> RayV {
    RayV {
        origin: c.origin,
        direction: v3_sub(
            v3_add(v3_add(c.lower_left_corner, v3_scale(c.horizontal, u)),
                v3_scale(c.vertical, v)),
            c.origin,
        ),
    }
}

pub struct Camera {
    pub origin: Vec3,
    pub horizontal: Vec3,
    pub vertical: Vec3,
    pub lower_left_corner: Vec3,
}

impl View for Camera {
    type V = CamV;

    open spec fn view(&self) -> CamV {
        CamV {
            origin: self.origin@,
            horizontal: self.horizontal@,
            vertical: self.vertical@,
            lower_left_corner: self.lower_left_corner@,
        }
    }
}

impl Camera {
    pub open spec fn wf(self) -> bool {
        cam_wf(self@)
    }

    /// The default camera, with exactly the geometry of `camera_default`.
    pub fn new() -> (r: Camera)
        ensures
            r@ == camera_default(),
            r.wf(),
    {
        let aspect_ratio = from_frac(16, 9);
        let viewport_height = Fx::from_num(2);
        let viewport_width = aspect_ratio.mul(viewport_height);
        let focal_length = Fx::one();

        let origin = Vec3::zero();
        let horizontal = Vec3::new(viewport_width, Fx::zero(), Fx::zero());
        let vertical = Vec3::new(Fx::zero(), viewport_height, Fx::zero());
        let two = Fx::from_num(2);
        let lower_left_corner = origin
            .sub(horizontal.div_s(two))
            .sub(vertical.div_s(two))
            .sub(Vec3::new(Fx::zero(), Fx::zero(), focal_length));

        Camera { origin, horizontal, vertical, lower_left_corner }
    }

    /// The ray through viewport point `(u, v)`, for `u`, `v` in `[0, 1]`.
    pub fn get_ray(&self, u: Fx, v: Fx) -> (r: Ray)
        ensures
            r@ == cam_ray(self@, u@, v@),
            self.wf() ==> r.wf(),
    {
        Ray {
            origin: self.origin,
            direction: self
                .lower_left_corner
                .add(self.horizontal.scale(u))
                .add(self.vertical.scale(v))
                .sub(self.origin),
        }
    }
}

} // verus!

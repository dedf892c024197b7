//! The scene aggregate: a flat collection of spheres and the table of the
//! materials they refer to, queried by a linear scan that keeps the closest
//! intersection found so far.
use vstd::prelude::*;
use crate::fixed::Fx;
use crate::ray::{Ray, RayV};
use crate::hittable::{HitRecord, HitV, hit_wf};
use crate::sphere::{Sphere, SphereV, sphere_wf, sphere_hit, lemma_sphere_hit_cap};
use crate::material::{Material, MatV, mat_wf};

verus! {

/// Mathematical image of the scene.
pub struct ListV {
    pub objects: Seq<SphereV>,
    pub materials: Seq<MatV>,
}

/// The image of the scan's result.
pub open spec fn opt_hit_view(o: Option<HitRecord>) -> Option<HitV> {
    match o {
        Some(h) => Some(h@),
        None => None,
    }
}

/// The state of the scan after the first `i` spheres: `best` is the closest
/// hit so far and `closest` the current far end of the search interval —
/// `t_max` while nothing was hit, then the parameter of the best hit. On an
/// exact tie in the parameter the record already held wins, so the
/// first-found minimal hit is the one reported.
pub open spec fn list_hit_from(objs: Seq<SphereV>, r: RayV, t_min: int, closest: int,
    best: Option<HitV>, i: int) -> Option<HitV>
    decreases objs.len() - i,
{
    if i < 0 || i >= objs.len() {
        best
    } else {
        match sphere_hit(objs[i], r, t_min, closest) {
            Some(h) => if best matches Some(b) && h.t == b.t {
                list_hit_from(objs, r, t_min, closest, best, i + 1)
            } else {
                list_hit_from(objs, r, t_min, h.t, Some(h), i + 1)
            },
            None => list_hit_from(objs, r, t_min, closest, best, i + 1),
        }
    }
}

/// The scene query: the closest intersection over all spheres with parameter
/// in `[t_min, t_max]`, or nothing.
pub open spec fn list_hit(objs: Seq<SphereV>, r: RayV, t_min: int, t_max: int) -> Option<HitV> {
    list_hit_from(objs, r, t_min, t_max, None, 0)
}

/// An intermediate scan result never reports a parameter beyond the current
/// far end, and never forgets a hit already found.
proof fn lemma_list_hit_from_le(objs: Seq<SphereV>, r: RayV, t_min: int, closest: int,
    best: Option<HitV>, i: int)
    requires
        best is Some ==> best->Some_0.t <= closest,
    ensures
        list_hit_from(objs, r, t_min, closest, best, i) is Some
            ==> list_hit_from(objs, r, t_min, closest, best, i)->Some_0.t <= closest,
        best is Some ==> list_hit_from(objs, r, t_min, closest, best, i) is Some,
    decreases objs.len() - i,
{
    if 0 <= i < objs.len() {
        match sphere_hit(objs[i], r, t_min, closest) {
            Some(h) => {
                if best matches Some(b) && h.t == b.t {
                    lemma_list_hit_from_le(objs, r, t_min, closest, best, i + 1);
                } else {
                    lemma_list_hit_from_le(objs, r, t_min, h.t, Some(h), i + 1);
                }
            },
            None => {
                lemma_list_hit_from_le(objs, r, t_min, closest, best, i + 1);
            },
        }
    }
}

/// Continuing the scan from a state in which sphere `k` (not yet visited)
/// has a hit within `[t_min, t_max]` yields a hit at most as far as that one.
proof fn lemma_list_hit_from_minimal(objs: Seq<SphereV>, r: RayV, t_min: int, t_max: int,
    closest: int, best: Option<HitV>, i: int, k: int)
    requires
        0 <= i <= k < objs.len(),
        closest <= t_max,
        best is Some ==> best->Some_0.t == closest,
        best is None ==> closest == t_max,
        sphere_hit(objs[k], r, t_min, t_max) is Some,
    ensures
        list_hit_from(objs, r, t_min, closest, best, i) is Some,
        list_hit_from(objs, r, t_min, closest, best, i)->Some_0.t
            <= sphere_hit(objs[k], r, t_min, t_max)->Some_0.t,
    decreases objs.len() - i,
{
    let hk = sphere_hit(objs[k], r, t_min, t_max)->Some_0;
    lemma_sphere_hit_cap(objs[k], r, t_min, closest, t_max);
    if i == k {
        if hk.t <= closest {
            if best matches Some(b) && hk.t == b.t {
                lemma_list_hit_from_le(objs, r, t_min, closest, best, i + 1);
            } else {
                lemma_list_hit_from_le(objs, r, t_min, hk.t, Some(hk), i + 1);
            }
        } else {
            match sphere_hit(objs[i], r, t_min, closest) {
                Some(h) => {
                    if best matches Some(b) && h.t == b.t {
                        lemma_list_hit_from_le(objs, r, t_min, closest, best, i + 1);
                    } else {
                        lemma_list_hit_from_le(objs, r, t_min, h.t, Some(h), i + 1);
                    }
                },
                None => {
                    lemma_list_hit_from_le(objs, r, t_min, closest, best, i + 1);
                },
            }
        }
    } else {
        match sphere_hit(objs[i], r, t_min, closest) {
            Some(h) => {
                if best matches Some(b) && h.t == b.t {
                    lemma_list_hit_from_minimal(objs, r, t_min, t_max, closest, best, i + 1,
                        k);
                } else {
                    lemma_list_hit_from_minimal(objs, r, t_min, t_max, h.t, Some(h), i + 1,
                        k);
                }
            },
            None => {
                lemma_list_hit_from_minimal(objs, r, t_min, t_max, closest, best, i + 1, k);
            },
        }
    }
}

/// Whatever the scan reports was reported by one of the spheres, for the
/// full original interval.
proof fn lemma_list_hit_from_member(objs: Seq<SphereV>, r: RayV, t_min: int, t_max: int,
    closest: int, best: Option<HitV>, i: int)
    requires
        0 <= i <= objs.len(),
        closest <= t_max,
        best is Some ==> exists|k: int| 0 <= k < objs.len()
            && sphere_hit(objs[k], r, t_min, t_max) == Some(best->Some_0),
    ensures
        list_hit_from(objs, r, t_min, closest, best, i) is Some
            ==> exists|k: int| 0 <= k < objs.len() && sphere_hit(objs[k], r, t_min, t_max)
                == Some(list_hit_from(objs, r, t_min, closest, best, i)->Some_0),
    decreases objs.len() - i,
{
    if 0 <= i < objs.len() {
        lemma_sphere_hit_cap(objs[i], r, t_min, closest, t_max);
        match sphere_hit(objs[i], r, t_min, closest) {
            Some(h) => {
                if best matches Some(b) && h.t == b.t {
                    lemma_list_hit_from_member(objs, r, t_min, t_max, closest, best, i + 1);
                } else {
                    assert(sphere_hit(objs[i], r, t_min, t_max) == Some(h));
                    lemma_list_hit_from_member(objs, r, t_min, t_max, h.t, Some(h), i + 1);
                }
            },
            None => {
                lemma_list_hit_from_member(objs, r, t_min, t_max, closest, best, i + 1);
            },
        }
    }
}

/// The scene query reports the closest hit: no sphere intersects the ray
/// within the interval strictly nearer than what is reported, and a sphere
/// with any hit in the interval keeps the query from reporting a miss.
pub proof fn lemma_list_hit_closest(objs: Seq<SphereV>, r: RayV, t_min: int, t_max: int, k: int)
    requires
        0 <= k < objs.len(),
        sphere_hit(objs[k], r, t_min, t_max) is Some,
    ensures
        list_hit(objs, r, t_min, t_max) is Some,
        list_hit(objs, r, t_min, t_max)->Some_0.t
            <= sphere_hit(objs[k], r, t_min, t_max)->Some_0.t,
{
    lemma_list_hit_from_minimal(objs, r, t_min, t_max, t_max, None, 0, k);
}

/// What the scene query reports is the hit of one of its spheres, taken over
/// the full interval.
pub proof fn lemma_list_hit_member(objs: Seq<SphereV>, r: RayV, t_min: int, t_max: int)
    requires
        list_hit(objs, r, t_min, t_max) is Some,
    ensures
        exists|k: int| 0 <= k < objs.len() && sphere_hit(objs[k], r, t_min, t_max)
            == Some(list_hit(objs, r, t_min, t_max)->Some_0),
{
    lemma_list_hit_from_member(objs, r, t_min, t_max, t_max, None, 0);
}

/// The scene: an append-only collection of spheres and the material table
/// their indices point into.
pub struct HittableList {
    pub objects: Vec<Sphere>,
    pub materials: Vec<Material>,
}

impl View for HittableList {
    type V = ListV;

    open spec fn view(&self) -> ListV {
        ListV {
            objects: self.objects@.map_values(|o: Sphere| o@),
            materials: self.materials@.map_values(|m: Material| m@),
        }
    }
}

impl HittableList {
    /// Every sphere is well-formed and refers to a material of the table.
    pub open spec fn wf(self) -> bool {
        &&& forall|i: int| 0 <= i < self@.objects.len()
            ==> sphere_wf(#[trigger] self@.objects[i])
        &&& forall|i: int| 0 <= i < self@.objects.len()
            ==> 0 <= (#[trigger] self@.objects[i]).mat < self@.materials.len()
        &&& forall|i: int| 0 <= i < self@.materials.len()
            ==> mat_wf(#[trigger] self@.materials[i])
    }

    pub fn new() -> (r: HittableList)
        ensures
            r@.objects.len() == 0,
            r@.materials.len() == 0,
            r.wf(),
    {
        HittableList { objects: Vec::new(), materials: Vec::new() }
    }

    /// Appends a material to the table and returns its index, the handle a
    /// sphere may refer to it by.
    pub fn add_material(&mut self, m: Material) -> (idx: usize)
        requires
            old(self).wf(),
            m.wf(),
        ensures
            final(self)@.materials == old(self)@.materials.push(m@),
            final(self)@.objects == old(self)@.objects,
            final(self).wf(),
            idx as int == old(self)@.materials.len(),
    {
        let idx = self.materials.len();
        self.materials.push(m);
        idx
    }

    /// Appends a sphere to the scene.
    pub fn add(&mut self, hittable: Sphere)
        requires
            old(self).wf(),
            sphere_wf(hittable@),
            (hittable.mat as int) < old(self)@.materials.len(),
        ensures
            final(self)@.objects == old(self)@.objects.push(hittable@),
            final(self)@.materials == old(self)@.materials,
            final(self).wf(),
    {
        self.objects.push(hittable);
        proof {
            let newobjs = self@.objects;
            let oldobjs = old(self)@.objects;
            assert forall|i: int| 0 <= i < newobjs.len() implies sphere_wf(#[trigger] newobjs[i])
                && 0 <= newobjs[i].mat < self@.materials.len() by {
                if i < oldobjs.len() {
                    assert(newobjs[i] == oldobjs[i]);
                } else {
                    assert(newobjs[i] == hittable@);
                }
            }
        }
    }

    /// Scans every sphere, each against the interval already narrowed to the
    /// closest hit so far, and reports the globally closest intersection,
    /// exactly as `list_hit` describes.
    pub fn hit(&self, ray: &Ray, t_min: Fx, t_max: Fx) -> (res: Option<HitRecord>)
        requires
            self.wf(),
            ray.wf(),
        ensures
            opt_hit_view(res) == list_hit(self@.objects, ray@, t_min@, t_max@),
            res is Some ==> hit_wf(res->Some_0@)
                && 0 <= res->Some_0@.mat < self@.materials.len(),
    {
        let ghost objs = self@.objects;
        let mut temporary_record: Option<HitRecord> = None;
        let mut closest_so_far = t_max;
        let n = self.objects.len();
        let mut idx: usize = 0;
        while idx < n
            invariant
                self.wf(),
                ray.wf(),
                objs == self@.objects,
                n == self.objects.len(),
                0 <= idx <= n,
                list_hit_from(objs, ray@, t_min@, closest_so_far@, opt_hit_view(
                    temporary_record), idx as int) == list_hit(objs, ray@, t_min@, t_max@),
                temporary_record is Some ==> temporary_record->Some_0@.t == closest_so_far@,
                temporary_record is None ==> closest_so_far@ == t_max@,
                temporary_record is Some ==> hit_wf(temporary_record->Some_0@)
                    && 0 <= temporary_record->Some_0@.mat < self@.materials.len(),
            decreases n - idx,
        {
            let object = &self.objects[idx];
            match object.hit(ray, t_min, closest_so_far) {
                Some(hit) => {
                    let take = match &temporary_record {
                        Some(prev) => hit.t.lt(prev.t),
                        None => true,
                    };
                    if take {
                        closest_so_far = hit.t;
                        temporary_record = Some(hit);
                    }
                },
                None => {},
            }
            idx = idx + 1;
        }
        temporary_record
    }
}

} // verus!

//! Hit records: the result of a successful ray / geometry intersection.

use crate::material::{material_wf, material_wf_s, Material};
use crate::ray::{ray_wf_s, Ray, POS_LIMIT, T_LIMIT};
use crate::sphere::{sphere_hit_s, Sphere};
use crate::vec3::{bounded_s, Vec3, V3};
use vstd::prelude::*;

verus! {

/// Largest magnitude allowed for a stored surface-normal component; a
/// geometric normal is close to unit length, and records outside this
/// range are treated as absorbed by the integrator.
pub const NORMAL_LIMIT: i128 = 4_000_000;

/// Result of a successful intersection test.  Created only by a hit query,
/// consumed immediately by the integrator, never mutated.
#[derive(Clone, Copy, Debug, PartialEq, Eq, Structural)]
pub struct HitRecord {
    pub point: Vec3,
    pub normal: Vec3,
    pub t: i128,
    pub material: Material,
    pub front_face: bool,
}

/// Spec-level model of a hit record, over unbounded integers.
#[verifier::ext_equal]
pub ghost struct HitRec {
    pub point: V3,
    pub normal: V3,
    pub t: int,
    pub material: Material,
    pub front_face: bool,
}

impl View for HitRecord {
    type V = HitRec;

    open spec fn view(&self) -> HitRec {
        HitRec {
            point: self.point@,
            normal: self.normal@,
            t: self.t as int,
            material: self.material,
            front_face: self.front_face,
        }
    }
}

/// A record the scattering models can work on: hit point and normal within
/// the machine range, and a well-formed material.
pub open spec fn rec_wf_s(h: HitRec) -> bool {
    &&& bounded_s(h.point, POS_LIMIT as int)
    &&& bounded_s(h.normal, NORMAL_LIMIT as int)
    &&& material_wf_s(h.material)
}

/// Decide `rec_wf_s` on a concrete record.
pub fn rec_wf(rec: &HitRecord) -> (b: bool)
    ensures
        b == rec_wf_s(rec@),
{
    let p = &rec.point;
    let n = &rec.normal;
    let pb = -POS_LIMIT <= p.x && p.x <= POS_LIMIT && -POS_LIMIT <= p.y && p.y <= POS_LIMIT
        && -POS_LIMIT <= p.z && p.z <= POS_LIMIT;
    let nb = -NORMAL_LIMIT <= n.x && n.x <= NORMAL_LIMIT && -NORMAL_LIMIT <= n.y
        && n.y <= NORMAL_LIMIT && -NORMAL_LIMIT <= n.z && n.z <= NORMAL_LIMIT;
    pb && nb && material_wf(&rec.material)
}

/// Nearest hit over a sequence of spheres: fold the per-sphere results,
/// keeping the record with the strictly smaller parameter (on an exact
/// tie, the earlier sphere's record).
pub open spec fn world_hit_s(ss: Seq<Sphere>, r: Ray, t_min: int, t_max: int) -> Option<HitRec>
    decreases ss.len(),
{
    if ss.len() == 0 {
        Option::None
    } else {
        let prev = world_hit_s(ss.drop_last(), r, t_min, t_max);
        match sphere_hit_s(ss.last(), r, t_min, t_max) {
            Option::None => prev,
            Option::Some(h) => match prev {
                Option::None => Option::Some(h),
                Option::Some(b) => if h.t < b.t {
                    Option::Some(h)
                } else {
                    Option::Some(b)
                },
            },
        }
    }
}

/// `res` is what a nearest-hit query over `ss` must return: nothing when
/// every sphere misses, else a record produced by one of the spheres whose
/// parameter no other sphere's record undercuts.
pub open spec fn world_hit_min(ss: Seq<Sphere>, r: Ray, t_min: int, t_max: int, res: Option<HitRec>) -> bool {
    match res {
        Option::None => forall|i: int|
            0 <= i < ss.len() ==> #[trigger] sphere_hit_s(ss[i], r, t_min, t_max) is None,
        Option::Some(h) => {
            &&& exists|i: int|
                0 <= i < ss.len() && #[trigger] sphere_hit_s(ss[i], r, t_min, t_max) == Option::Some(h)
            &&& forall|i: int|
                0 <= i < ss.len() && #[trigger] sphere_hit_s(ss[i], r, t_min, t_max) is Some
                    ==> h.t <= sphere_hit_s(ss[i], r, t_min, t_max)->Some_0.t
        },
    }
}

/// The fold `world_hit_s` returns exactly the record a sphere-by-sphere
/// query with minimum-parameter selection would: nothing on an all-miss,
/// else one sphere's record with the least parameter among all hits.
pub proof fn lemma_world_hit_characterization(ss: Seq<Sphere>, r: Ray, t_min: int, t_max: int)
    ensures
        world_hit_min(ss, r, t_min, t_max, world_hit_s(ss, r, t_min, t_max)),
    decreases ss.len(),
{
    if ss.len() > 0 {
        let prefix = ss.drop_last();
        lemma_world_hit_characterization(prefix, r, t_min, t_max);
        let prev = world_hit_s(prefix, r, t_min, t_max);
        let lasth = sphere_hit_s(ss.last(), r, t_min, t_max);
        let res = world_hit_s(ss, r, t_min, t_max);
        assert(ss.last() == ss[ss.len() - 1]);
        assert(forall|i: int| 0 <= i < ss.len() - 1 ==> ss[i] == prefix[i]);
        match res {
            Option::None => {
                assert forall|i: int| 0 <= i < ss.len() implies #[trigger] sphere_hit_s(
                    ss[i],
                    r,
                    t_min,
                    t_max,
                ) is None by {
                    if i < ss.len() - 1 {
                        assert(sphere_hit_s(prefix[i], r, t_min, t_max) is None);
                    }
                }
            },
            Option::Some(h) => {
                if lasth is Some && (prev is None || lasth->Some_0.t < prev->Some_0.t) {
                    assert(sphere_hit_s(ss[ss.len() - 1], r, t_min, t_max) == Option::Some(h));
                } else {
                    let j = choose|j: int|
                        0 <= j < prefix.len() && #[trigger] sphere_hit_s(prefix[j], r, t_min, t_max)
                            == Option::Some(h);
                    assert(sphere_hit_s(ss[j], r, t_min, t_max) == Option::Some(h));
                }
                assert forall|i: int|
                    0 <= i < ss.len() && #[trigger] sphere_hit_s(ss[i], r, t_min, t_max) is Some
                        implies h.t <= sphere_hit_s(ss[i], r, t_min, t_max)->Some_0.t by {
                    if i < ss.len() - 1 {
                        assert(sphere_hit_s(prefix[i], r, t_min, t_max) is Some);
                    }
                }
            },
        }
    }
}

/// Reordering the spheres never changes the chosen record, as long as no
/// two distinct spheres produce hits with exactly equal parameters.
pub proof fn lemma_world_hit_order_independent(
    s1: Seq<Sphere>,
    s2: Seq<Sphere>,
    r: Ray,
    t_min: int,
    t_max: int,
)
    requires
        s1.to_multiset() == s2.to_multiset(),
        forall|i: int, j: int|
            0 <= i < s1.len() && 0 <= j < s1.len() && s1[i] != s1[j] && #[trigger] sphere_hit_s(
                s1[i],
                r,
                t_min,
                t_max,
            ) is Some && #[trigger] sphere_hit_s(s1[j], r, t_min, t_max) is Some
                ==> sphere_hit_s(s1[i], r, t_min, t_max)->Some_0.t != sphere_hit_s(
                s1[j],
                r,
                t_min,
                t_max,
            )->Some_0.t,
    ensures
        world_hit_s(s1, r, t_min, t_max) == world_hit_s(s2, r, t_min, t_max),
{
    broadcast use vstd::seq_lib::group_to_multiset_ensures;

    lemma_world_hit_characterization(s1, r, t_min, t_max);
    lemma_world_hit_characterization(s2, r, t_min, t_max);
    let res1 = world_hit_s(s1, r, t_min, t_max);
    let res2 = world_hit_s(s2, r, t_min, t_max);
    assert(forall|x: Sphere| s1.contains(x) <==> s2.contains(x)) by {
        assert(forall|x: Sphere| s1.contains(x) <==> s1.to_multiset().count(x) > 0);
        assert(forall|x: Sphere| s2.contains(x) <==> s2.to_multiset().count(x) > 0);
    }
    match res1 {
        Option::None => {
            if res2 is Some {
                let j = choose|j: int|
                    0 <= j < s2.len() && #[trigger] sphere_hit_s(s2[j], r, t_min, t_max)
                        == Option::Some(res2->Some_0);
                assert(s2.contains(s2[j]));
                let i = choose|i: int| 0 <= i < s1.len() && s1[i] == s2[j];
                assert(sphere_hit_s(s1[i], r, t_min, t_max) is None);
                assert(false);
            }
        },
        Option::Some(h1) => {
            let i1 = choose|i: int|
                0 <= i < s1.len() && #[trigger] sphere_hit_s(s1[i], r, t_min, t_max)
                    == Option::Some(h1);
            assert(s1.contains(s1[i1]));
            let k1 = choose|k: int| 0 <= k < s2.len() && s2[k] == s1[i1];
            if res2 is None {
                assert(sphere_hit_s(s2[k1], r, t_min, t_max) is None);
                assert(false);
            }
            let h2 = res2->Some_0;
            let i2 = choose|i: int|
                0 <= i < s2.len() && #[trigger] sphere_hit_s(s2[i], r, t_min, t_max)
                    == Option::Some(h2);
            assert(s2.contains(s2[i2]));
            let k2 = choose|k: int| 0 <= k < s1.len() && s1[k] == s2[i2];
            assert(h2.t <= h1.t);
            assert(h1.t <= h2.t);
            if s1[k2] != s1[i1] {
                assert(sphere_hit_s(s1[i1], r, t_min, t_max)->Some_0.t != sphere_hit_s(
                    s1[k2],
                    r,
                    t_min,
                    t_max,
                )->Some_0.t);
                assert(false);
            }
            assert(Option::Some(h1) == Option::Some(h2));
        },
    }
}

/// An ordered collection of spheres; read-only while rendering.
pub struct World {
    pub spheres: Vec<Sphere>,
}

impl World {
    /// Every sphere of the scene is well-formed.
    pub open spec fn wf(self) -> bool {
        forall|i: int| 0 <= i < self.spheres@.len() ==> (#[trigger] self.spheres@[i]).wf()
    }

    pub fn new() -> (w: World)
        ensures
            w.spheres@.len() == 0,
            w.wf(),
    {
        World { spheres: Vec::new() }
    }

    pub fn add(&mut self, s: Sphere)
        ensures
            final(self).spheres@ == old(self).spheres@.push(s),
    {
        self.spheres.push(s);
    }

    /// Nearest hit among all spheres over `[t_min, t_max]`; exact image of
    /// `world_hit_s`.  Never mutates the scene, so concurrent queries from
    /// independent workers are safe.
    pub fn hit(&self, r: &Ray, t_min: i128, t_max: i128) -> (res: Option<HitRecord>)
        requires
            self.wf(),
            ray_wf_s(*r),
            -T_LIMIT <= t_min <= T_LIMIT,
            -T_LIMIT <= t_max <= T_LIMIT,
        ensures
            (res is Some) == (world_hit_s(self.spheres@, *r, t_min as int, t_max as int) is Some),
            res matches Some(h) ==> h@ == world_hit_s(
                self.spheres@,
                *r,
                t_min as int,
                t_max as int,
            )->Some_0,
    {
        let ghost ssq = self.spheres@;
        let n = self.spheres.len();
        let mut best: Option<HitRecord> = None;
        let mut i: usize = 0;
        while i < n
            invariant
                n == ssq.len(),
                ssq == self.spheres@,
                i <= n,
                self.wf(),
                ray_wf_s(*r),
                -T_LIMIT <= t_min <= T_LIMIT,
                -T_LIMIT <= t_max <= T_LIMIT,
                (best is Some) == (world_hit_s(ssq.take(i as int), *r, t_min as int, t_max as int) is Some),
                best matches Some(b) ==> b@ == world_hit_s(
                    ssq.take(i as int),
                    *r,
                    t_min as int,
                    t_max as int,
                )->Some_0,
            decreases n - i,
        {
            let s = self.spheres[i];
            let h = s.hit(r, t_min, t_max);
            proof {
                assert(ssq.take(i as int + 1).drop_last() =~= ssq.take(i as int));
                assert(ssq.take(i as int + 1).last() == ssq[i as int]);
            }
            best = match (h, best) {
                (Some(nh), Some(b)) => if nh.t < b.t {
                    Some(nh)
                } else {
                    Some(b)
                },
                (Some(nh), None) => Some(nh),
                (None, b) => b,
            };
            i = i + 1;
        }
        proof {
            assert(ssq.take(n as int) =~= ssq);
        }
        best
    }
}

} // verus!

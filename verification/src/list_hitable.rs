//! The nearest hit among the spheres of a scene.

use vstd::prelude::*;
use crate::param::Param;
use crate::sphere_hitable::{Crossing, Root};

verus! {

/// The hit that a scan settled on.
#[derive(Clone, Copy, Debug, PartialEq, Eq, Structural)]
pub struct HitRecord {
    /// Parameter of the hit along the ray.
    pub t: Param,
    /// Place of the hit sphere in the scene.
    pub index: usize,
    /// Which root of that sphere was taken.
    pub root: Root,
}

/// Upper bound for the next candidate: the closest hit so far, or `t_max`
/// while there is none.
pub open spec fn closest_so_far(best: Option<HitRecord>, t_max: Param) -> Param {
    match best {
        Some(hit) => hit.t,
        None => t_max,
    }
}

/// The result of scanning `crossings` in order. Every candidate is tested
/// against the closest hit found before it, so a later candidate replaces an
/// earlier one only where it is strictly nearer.
pub open spec fn nearest(crossings: Seq<Crossing>, t_min: Param, t_max: Param) -> Option<HitRecord>
    decreases crossings.len(),
{
    if crossings.len() == 0 {
        None
    } else {
        let best = nearest(crossings.drop_last(), t_min, t_max);
        let last = crossings.last();
        match last.accepted(t_min, closest_so_far(best, t_max)) {
            Some(root) => Some(
                HitRecord { t: last.param(root), index: (crossings.len() - 1) as usize, root },
            ),
            None => best,
        }
    }
}

/// Scans the crossings of one ray with every sphere of a scene and returns the
/// nearest hit inside the open interval from `t_min` to `t_max`.
pub fn nearest_hit(crossings: &Vec<Crossing>, t_min: Param, t_max: Param) -> (hit: Option<HitRecord>)
    ensures
        hit == nearest(crossings@, t_min, t_max),
{
    let mut closest: Param = t_max;
    let mut best: Option<HitRecord> = None;
    let mut k: usize = 0;
    while k < crossings.len()
        invariant
            k <= crossings.len(),
            best == nearest(crossings@.take(k as int), t_min, t_max),
            closest == closest_so_far(best, t_max),
        decreases crossings.len() - k,
    {
        proof {
            let done = crossings@.take(k as int + 1);
            assert(done.drop_last() =~= crossings@.take(k as int));
            assert(done.last() == crossings@[k as int]);
        }
        let candidate = &crossings[k];
        if let Some(root) = candidate.hit(t_min, closest) {
            let t = candidate.param_of(root);
            closest = t;
            best = Some(HitRecord { t, index: k, root });
        }
        k += 1;
    }
    assert(crossings@.take(k as int) =~= crossings@);
    best
}

/// `hit` is the first of the nearest hits that the spheres of `crossings`
/// offer inside the open interval from `t_min` to `t_max`: it is what its own
/// sphere offers there, no sphere offers a nearer one, and every sphere before
/// it that offers one offers it strictly farther away.
pub open spec fn is_first_minimum(
    crossings: Seq<Crossing>,
    t_min: Param,
    t_max: Param,
    hit: HitRecord,
) -> bool {
    &&& hit.index < crossings.len()
    &&& crossings[hit.index as int].accepted(t_min, t_max) == Some(hit.root)
    &&& hit.t == crossings[hit.index as int].param(hit.root)
    &&& hit.t.within(t_min, t_max)
    &&& forall|k: int|
        0 <= k < crossings.len() ==> match (#[trigger] crossings[k]).accepted(t_min, t_max) {
            Some(root) => !crossings[k].param(root).lt(hit.t),
            None => true,
        }
    &&& forall|k: int|
        0 <= k < hit.index ==> match (#[trigger] crossings[k]).accepted(t_min, t_max) {
            Some(root) => hit.t.lt(crossings[k].param(root)),
            None => true,
        }
}

/// Where no sphere has its near root beyond its far root, a scan returns the
/// first of the nearest hits offered, and returns nothing exactly when no
/// sphere offers a hit.
pub proof fn lemma_nearest_is_first_minimum(crossings: Seq<Crossing>, t_min: Param, t_max: Param)
    requires
        crossings.len() <= usize::MAX,
        forall|k: int| 0 <= k < crossings.len() ==> (#[trigger] crossings[k]).ordered(),
    ensures
        match nearest(crossings, t_min, t_max) {
            Some(hit) => is_first_minimum(crossings, t_min, t_max, hit),
            None => forall|k: int|
                0 <= k < crossings.len() ==> (#[trigger] crossings[k]).accepted(t_min, t_max)
                    is None,
        },
    decreases crossings.len(),
{
    if crossings.len() > 0 {
        let front = crossings.drop_last();
        let last = crossings.last();
        assert forall|k: int| 0 <= k < front.len() implies (#[trigger] front[k]).ordered() by {
            assert(front[k] == crossings[k]);
        }
        lemma_nearest_is_first_minimum(front, t_min, t_max);
        let best = nearest(front, t_min, t_max);
        let bound = closest_so_far(best, t_max);
        assert(last == crossings[crossings.len() - 1]);
        match nearest(crossings, t_min, t_max) {
            Some(hit) => {
                match last.accepted(t_min, bound) {
                    Some(root) => {
                        assert(hit.index == crossings.len() - 1);
                        assert forall|k: int| 0 <= k < crossings.len() implies match (
                        #[trigger] crossings[k]).accepted(t_min, t_max) {
                            Some(r) => !crossings[k].param(r).lt(hit.t),
                            None => true,
                        } by {
                            if k < front.len() {
                                assert(front[k] == crossings[k]);
                            }
                        }
                        assert forall|k: int| 0 <= k < hit.index implies match (
                        #[trigger] crossings[k]).accepted(t_min, t_max) {
                            Some(r) => hit.t.lt(crossings[k].param(r)),
                            None => true,
                        } by {
                            assert(front[k] == crossings[k]);
                        }
                    },
                    None => {
                        assert(best == Some(hit));
                        assert(crossings[hit.index as int] == front[hit.index as int]);
                        assert forall|k: int| 0 <= k < crossings.len() implies match (
                        #[trigger] crossings[k]).accepted(t_min, t_max) {
                            Some(r) => !crossings[k].param(r).lt(hit.t),
                            None => true,
                        } by {
                            if k < front.len() {
                                assert(front[k] == crossings[k]);
                            }
                        }
                        assert forall|k: int| 0 <= k < hit.index implies match (
                        #[trigger] crossings[k]).accepted(t_min, t_max) {
                            Some(r) => hit.t.lt(crossings[k].param(r)),
                            None => true,
                        } by {
                            assert(front[k] == crossings[k]);
                        }
                    },
                }
            },
            None => {
                assert forall|k: int| 0 <= k < crossings.len() implies (
                #[trigger] crossings[k]).accepted(t_min, t_max) is None by {
                    if k < front.len() {
                        assert(front[k] == crossings[k]);
                    }
                }
            },
        }
    }
}

proof fn lemma_shared_member(a: Seq<Crossing>, b: Seq<Crossing>, k: int)
    requires
        a.to_multiset() == b.to_multiset(),
        0 <= k < a.len(),
    ensures
        exists|m: int| 0 <= m < b.len() && b[m] == a[k],
{
    a.to_multiset_ensures();
    b.to_multiset_ensures();
    assert(a.contains(a[k]));
    assert(a.to_multiset().count(a[k]) > 0);
    assert(b.to_multiset().count(a[k]) > 0);
    assert(b.contains(a[k]));
}

proof fn lemma_not_nearer(a: Seq<Crossing>, b: Seq<Crossing>, t_min: Param, t_max: Param)
    requires
        a.len() <= usize::MAX,
        b.len() <= usize::MAX,
        a.to_multiset() == b.to_multiset(),
        forall|k: int| 0 <= k < a.len() ==> (#[trigger] a[k]).ordered(),
        forall|k: int| 0 <= k < b.len() ==> (#[trigger] b[k]).ordered(),
    ensures
        match nearest(a, t_min, t_max) {
            Some(x) => match nearest(b, t_min, t_max) {
                Some(y) => !x.t.lt(y.t),
                None => false,
            },
            None => true,
        },
{
    lemma_nearest_is_first_minimum(a, t_min, t_max);
    lemma_nearest_is_first_minimum(b, t_min, t_max);
    if let Some(x) = nearest(a, t_min, t_max) {
        lemma_shared_member(a, b, x.index as int);
        let m = choose|m: int| 0 <= m < b.len() && b[m] == a[x.index as int];
        assert(b[m].accepted(t_min, t_max) == Some(x.root));
    }
}

/// The distance of the nearest hit does not depend on the order of the
/// spheres: two scenes that hold the same spheres, none with its near root
/// beyond its far root, give hits at the same parameter, or both give none.
pub proof fn lemma_nearest_ignores_order(
    a: Seq<Crossing>,
    b: Seq<Crossing>,
    t_min: Param,
    t_max: Param,
)
    requires
        a.len() <= usize::MAX,
        b.len() <= usize::MAX,
        a.to_multiset() == b.to_multiset(),
        forall|k: int| 0 <= k < a.len() ==> (#[trigger] a[k]).ordered(),
    ensures
        match (nearest(a, t_min, t_max), nearest(b, t_min, t_max)) {
            (Some(x), Some(y)) => x.t == y.t,
            (None, None) => true,
            _ => false,
        },
{
    assert forall|k: int| 0 <= k < b.len() implies (#[trigger] b[k]).ordered() by {
        lemma_shared_member(b, a, k);
    }
    lemma_not_nearer(a, b, t_min, t_max);
    lemma_not_nearer(b, a, t_min, t_max);
    lemma_nearest_is_first_minimum(a, t_min, t_max);
    lemma_nearest_is_first_minimum(b, t_min, t_max);
}

} // verus!

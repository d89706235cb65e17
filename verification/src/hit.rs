//! What an intersection query reports, and how the nearest of several
//! reports is chosen.

use vstd::prelude::*;
use crate::fixed::Fixed;
use crate::vec3::Vec3;

verus! {

/// Raw value of the least parameter at which a ray that leaves a surface may
/// hit again: one thousandth, rounded toward zero.
pub const NEAR_RAW: i64 = 16777;

pub open spec fn spec_near() -> Fixed {
    Fixed { raw: NEAR_RAW }
}

/// The least parameter at which a ray that leaves a surface may hit again.
/// It keeps a bounced ray from hitting the surface that it starts on.
#[verifier::when_used_as_spec(spec_near)]
pub fn near() -> (r: Fixed)
    ensures
        r == spec_near(),
{
    Fixed { raw: NEAR_RAW }
}

/// One intersection of a ray with a surface.
#[derive(Clone, Copy, Debug, PartialEq, Eq, Structural)]
pub struct HitRecord {
    /// Ray parameter of the intersection.
    pub t: Fixed,
    /// The point of intersection.
    pub p: Vec3,
    /// The surface normal at that point.
    pub normal: Vec3,
    /// First texture coordinate.
    pub u: Fixed,
    /// Second texture coordinate.
    pub v: Fixed,
}

impl HitRecord {
    /// Whether the parameter lies strictly inside the interval.
    pub open spec fn within(self, t_min: Fixed, t_max: Fixed) -> bool {
        t_min@ < self.t@ < t_max@
    }

    pub open spec fn spec_flipped(self) -> HitRecord {
        HitRecord { normal: self.normal.neg(), ..self }
    }

    /// The same intersection with the normal reversed.
    #[verifier::when_used_as_spec(spec_flipped)]
    pub fn flipped(self) -> (r: HitRecord)
        ensures
            r == self.spec_flipped(),
            r.t == self.t,
            r.p == self.p,
            r.u == self.u,
            r.v == self.v,
            r.normal == self.normal.neg(),
    {
        HitRecord { t: self.t, p: self.p, normal: self.normal.neg(), u: self.u, v: self.v }
    }
}

/// An intersection kept only if its parameter lies strictly inside the
/// interval.
pub open spec fn spec_restrict(h: Option<HitRecord>, t_min: Fixed, t_max: Fixed) -> Option<
    HitRecord,
> {
    match h {
        Some(rec) => if rec.within(t_min, t_max) {
            h
        } else {
            None
        },
        None => None,
    }
}

/// An intersection kept only if its parameter lies strictly inside the
/// interval.
#[verifier::when_used_as_spec(spec_restrict)]
pub fn restrict(h: Option<HitRecord>, t_min: Fixed, t_max: Fixed) -> (r: Option<HitRecord>)
    ensures
        r == spec_restrict(h, t_min, t_max),
{
    match h {
        Some(rec) => if t_min.raw < rec.t.raw && rec.t.raw < t_max.raw {
            h
        } else {
            None
        },
        None => None,
    }
}

/// An intersection kept only if its parameter lies strictly before `end`.
pub open spec fn cut(h: Option<HitRecord>, end: Fixed) -> Option<HitRecord> {
    match h {
        Some(rec) => if rec.t@ < end@ {
            h
        } else {
            None
        },
        None => None,
    }
}

/// An intersection found in a collection: which member was hit, and where.
#[derive(Clone, Copy, Debug, PartialEq, Eq, Structural)]
pub struct Found {
    /// Position of the member in the collection.
    pub index: usize,
    /// The intersection with that member.
    pub record: HitRecord,
}

/// The nearer of the best intersection so far and a later member's
/// intersection. The later one wins only if it is strictly nearer.
pub open spec fn nearer(best: Option<Found>, index: usize, next: Option<HitRecord>) -> Option<
    Found,
> {
    match next {
        None => best,
        Some(rec) => match best {
            None => Some(Found { index, record: rec }),
            Some(b) => if rec.t@ < b.record.t@ {
                Some(Found { index, record: rec })
            } else {
                best
            },
        },
    }
}

/// The nearest of a sequence of intersections: the one with the least
/// parameter, the earliest of them where several share it.
pub open spec fn nearest(hits: Seq<Option<HitRecord>>) -> Option<Found>
    decreases hits.len(),
{
    if hits.len() == 0 {
        None
    } else {
        nearer(nearest(hits.drop_last()), (hits.len() - 1) as usize, hits.last())
    }
}

/// The far end of the interval that is left to search once `best` is known.
pub open spec fn limit(best: Option<Found>, t_max: Fixed) -> Fixed {
    match best {
        Some(b) => b.record.t,
        None => t_max,
    }
}

/// What is chosen as nearest is one of the intersections, and none of the
/// others is nearer; those before it are strictly farther. Nothing is chosen
/// only if there is no intersection at all.
pub proof fn lemma_nearest_is_least(hits: Seq<Option<HitRecord>>)
    requires
        hits.len() <= usize::MAX,
    ensures
        match nearest(hits) {
            Some(f) => {
                &&& f.index < hits.len()
                &&& hits[f.index as int] == Some(f.record)
                &&& forall|i: int|
                    0 <= i < hits.len() && hits[i] is Some ==> f.record.t@ <= (#[trigger] hits[i])->0.t@
                &&& forall|i: int|
                    0 <= i < f.index && hits[i] is Some ==> f.record.t@ < (#[trigger] hits[i])->0.t@
            },
            None => forall|i: int| 0 <= i < hits.len() ==> (#[trigger] hits[i]) is None,
        },
    decreases hits.len(),
{
    if hits.len() > 0 {
        let front = hits.drop_last();
        lemma_nearest_is_least(front);
        assert forall|i: int| 0 <= i < front.len() implies front[i] == hits[i] by {}
        match nearest(hits) {
            Some(f) => {
                assert forall|i: int| 0 <= i < hits.len() && hits[i] is Some implies f.record.t@ <= (
                #[trigger] hits[i])->0.t@ by {
                    if i < front.len() {
                        assert(front[i] == hits[i]);
                    }
                }
                assert forall|i: int| 0 <= i < f.index && hits[i] is Some implies f.record.t@ < (
                #[trigger] hits[i])->0.t@ by {
                    if i < front.len() {
                        assert(front[i] == hits[i]);
                    }
                }
            },
            None => {
                assert forall|i: int| 0 <= i < hits.len() implies (#[trigger] hits[i]) is None by {
                    if i < front.len() {
                        assert(front[i] == hits[i]);
                    }
                }
            },
        }
    }
}

/// Cutting the interval short at `end` keeps the nearest intersection if it
/// lies before the cut and leaves nothing otherwise, provided the same holds
/// of every member.
pub proof fn lemma_nearest_cut(
    full: Seq<Option<HitRecord>>,
    short: Seq<Option<HitRecord>>,
    end: Fixed,
)
    requires
        full.len() == short.len(),
        forall|i: int| 0 <= i < full.len() ==> (#[trigger] short[i]) == cut(full[i], end),
    ensures
        nearest(short) == (match nearest(full) {
            Some(f) => if f.record.t@ < end@ {
                nearest(full)
            } else {
                None
            },
            None => None,
        }),
    decreases full.len(),
{
    if full.len() > 0 {
        let f0 = full.drop_last();
        let s0 = short.drop_last();
        assert forall|i: int| 0 <= i < f0.len() implies (#[trigger] s0[i]) == cut(f0[i], end) by {
            assert(s0[i] == short[i]);
            assert(f0[i] == full[i]);
        }
        lemma_nearest_cut(f0, s0, end);
        assert(short.last() == short[short.len() - 1]);
        assert(full.last() == full[full.len() - 1]);
    }
}

/// One step of a search that narrows the interval as it goes: the member at
/// `i` is asked only for an intersection before the best one so far, and what
/// it answers decides the best one after it.
pub proof fn lemma_nearest_step(
    hits: Seq<Option<HitRecord>>,
    i: int,
    narrowed: Option<HitRecord>,
    t_min: Fixed,
    t_max: Fixed,
)
    requires
        0 <= i < hits.len(),
        i <= usize::MAX,
        hits[i] matches Some(rec) ==> rec.within(t_min, t_max),
        narrowed == cut(hits[i], limit(nearest(hits.take(i)), t_max)),
    ensures
        nearest(hits.take(i + 1)) == (match narrowed {
            Some(rec) => Some(Found { index: i as usize, record: rec }),
            None => nearest(hits.take(i)),
        }),
{
    let upto = hits.take(i + 1);
    assert(upto.drop_last() =~= hits.take(i));
    assert(upto.last() == hits[i]);
}

} // verus!

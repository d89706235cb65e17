//! The scene: a list of shapes, each with its material.

use vstd::prelude::*;
use crate::fixed::Fixed;
use crate::hit::Found;
use crate::hit::HitRecord;
use crate::hit::cut;
use crate::hit::lemma_nearest_is_least;
use crate::hit::lemma_nearest_step;
use crate::hit::limit;
use crate::hit::nearest;
use crate::ray::Ray;
use crate::shape::Shape;
use crate::shape::lemma_hit_nearest;
use crate::shape::lemma_hit_within;

verus! {

/// A shape and the material of its surface.
pub struct Object<M> {
    pub shape: Shape,
    pub material: M,
}

/// A list of objects, in the order in which they were added.
pub struct Scene<M> {
    pub objects: Vec<Object<M>>,
}

impl<M> Default for Scene<M> {
    /// The empty scene.
    fn default() -> (r: Self)
        ensures
            r.objects@.len() == 0,
    {
        Scene { objects: Vec::new() }
    }
}

impl<M> Scene<M> {
    /// The empty scene.
    pub fn new() -> (r: Self)
        ensures
            r.objects@.len() == 0,
    {
        Scene { objects: Vec::new() }
    }

    /// Adds an object behind those that are there.
    pub fn push(&mut self, shape: Shape, material: M)
        ensures
            final(self).objects@ == old(self).objects@.push(Object { shape, material }),
    {
        self.objects.push(Object { shape, material });
    }

    /// The number of objects.
    pub fn len(&self) -> (n: usize)
        ensures
            n == self.objects@.len(),
    {
        self.objects.len()
    }

    /// The material of the object at `index`.
    pub fn material(&self, index: usize) -> (m: &M)
        requires
            index < self.objects@.len(),
        ensures
            *m == self.objects@[index as int].material,
    {
        &self.objects[index].material
    }

    /// Each object's own nearest intersection with the ray inside the
    /// interval, in the order of the objects.
    pub open spec fn hits(&self, ray: &Ray, t_min: Fixed, t_max: Fixed) -> Seq<Option<HitRecord>> {
        Seq::new(
            self.objects@.len(),
            |i: int| self.objects@[i].shape.spec_hit(ray, t_min, t_max),
        )
    }

    /// The nearest intersection of the ray with any object: the one with the
    /// least parameter among the objects' own intersections inside the
    /// interval, and of several objects hit at that parameter the one added
    /// first.
    pub open spec fn spec_hit(&self, ray: &Ray, t_min: Fixed, t_max: Fixed) -> Option<Found> {
        nearest(self.hits(ray, t_min, t_max))
    }

    /// The nearest intersection of the ray with any object whose parameter
    /// lies strictly between `t_min` and `t_max`, and the object's place in
    /// the scene.
    #[verifier::when_used_as_spec(spec_hit)]
    pub fn hit(&self, ray: &Ray, t_min: Fixed, t_max: Fixed) -> (r: Option<Found>)
        ensures
            r == self.spec_hit(ray, t_min, t_max),
            r matches Some(f) ==> f.index < self.objects@.len() && f.record.within(t_min, t_max)
                && self.objects@[f.index as int].shape.spec_hit(ray, t_min, t_max) == Some(
                f.record,
            ),
    {
        let n = self.objects.len();
        let ghost hits = self.hits(ray, t_min, t_max);
        let mut best: Option<Found> = None;
        let mut closest = t_max;
        let mut i: usize = 0;
        proof {
            assert(hits.take(0) =~= Seq::empty());
        }
        while i < n
            invariant
                i <= n,
                n == self.objects@.len(),
                hits == self.hits(ray, t_min, t_max),
                best == nearest(hits.take(i as int)),
                closest == limit(best, t_max),
                closest@ <= t_max@,
            decreases n - i,
        {
            let h = self.objects[i].shape.hit(ray, t_min, closest);
            proof {
                let shape = &self.objects@[i as int].shape;
                lemma_hit_nearest(shape, ray, t_min, t_max, closest);
                lemma_hit_within(shape, ray, t_min, t_max);
                assert(hits[i as int] == shape.spec_hit(ray, t_min, t_max));
                assert(h == cut(hits[i as int], closest));
                lemma_nearest_step(hits, i as int, h, t_min, t_max);
            }
            match h {
                Some(rec) => {
                    best = Some(Found { index: i, record: rec });
                    closest = rec.t;
                },
                None => {},
            }
            i = i + 1;
        }
        proof {
            assert(hits.take(n as int) =~= hits);
            lemma_nearest_is_least(hits);
            if let Some(f) = best {
                lemma_hit_within(&self.objects@[f.index as int].shape, ray, t_min, t_max);
            }
        }
        best
    }
}

/// The scene reports the least of its objects' intersections: what it
/// reports is the intersection of the object it names, no object has a
/// nearer one, and every object before the named one has a farther one. It
/// reports nothing only if the ray misses every object.
pub proof fn law_scene_hit_is_nearest<M>(scene: &Scene<M>, ray: &Ray, t_min: Fixed, t_max: Fixed)
    ensures
        match scene.spec_hit(ray, t_min, t_max) {
            Some(f) => {
                &&& f.index < scene.objects@.len()
                &&& f.record.within(t_min, t_max)
                &&& scene.objects@[f.index as int].shape.spec_hit(ray, t_min, t_max) == Some(
                    f.record,
                )
                &&& forall|i: int|
                    0 <= i < scene.objects@.len() ==> (
                    #[trigger] scene.objects@[i].shape.spec_hit(ray, t_min, t_max) matches Some(
                        other,
                    ) ==> f.record.t@ <= other.t@ && (i < f.index ==> f.record.t@ < other.t@))
            },
            None => forall|i: int|
                0 <= i < scene.objects@.len() ==> (#[trigger] scene.objects@[i].shape.spec_hit(
                    ray,
                    t_min,
                    t_max,
                )) is None,
        },
{
    let hits = scene.hits(ray, t_min, t_max);
    assert(scene.objects.len() == scene.objects@.len());
    lemma_nearest_is_least(hits);
    match scene.spec_hit(ray, t_min, t_max) {
        Some(f) => {
            lemma_hit_within(&scene.objects@[f.index as int].shape, ray, t_min, t_max);
            assert forall|i: int| 0 <= i < scene.objects@.len() implies (
            #[trigger] scene.objects@[i].shape.spec_hit(ray, t_min, t_max) matches Some(other)
                ==> f.record.t@ <= other.t@ && (i < f.index ==> f.record.t@ < other.t@)) by {
                assert(hits[i] == scene.objects@[i].shape.spec_hit(ray, t_min, t_max));
            }
        },
        None => {
            assert forall|i: int| 0 <= i < scene.objects@.len() implies (
            #[trigger] scene.objects@[i].shape.spec_hit(ray, t_min, t_max)) is None by {
                assert(hits[i] is None);
            }
        },
    }
}

/// Whether two scenes hold the same materials in the same order, on shapes
/// that report the same intersections.
pub open spec fn same_scene<M>(a: &Scene<M>, b: &Scene<M>) -> bool {
    &&& a.objects@.len() == b.objects@.len()
    &&& forall|i: int|
        0 <= i < a.objects@.len() ==> (#[trigger] a.objects@[i]).material == b.objects@[i].material
            && crate::shape::same_hits(&a.objects@[i].shape, &b.objects@[i].shape)
}

/// Scenes whose members report the same report the same: the same member,
/// and the same intersection with it, for every ray and every interval.
pub proof fn law_same_scene_same_hit<M>(
    a: &Scene<M>,
    b: &Scene<M>,
    ray: &Ray,
    t_min: Fixed,
    t_max: Fixed,
)
    requires
        same_scene(a, b),
    ensures
        a.spec_hit(ray, t_min, t_max) == b.spec_hit(ray, t_min, t_max),
{
    let ha = a.hits(ray, t_min, t_max);
    let hb = b.hits(ray, t_min, t_max);
    assert forall|i: int| 0 <= i < ha.len() implies ha[i] == hb[i] by {
        assert(crate::shape::same_hits(&a.objects@[i].shape, &b.objects@[i].shape));
        assert(a.objects@[i].shape.spec_hit(&*ray, t_min, t_max) == b.objects@[i].shape.spec_hit(
            &*ray,
            t_min,
            t_max,
        ));
    }
    assert(ha =~= hb);
}

} // verus!

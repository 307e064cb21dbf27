//! The axis-aligned bounding box that every importer accumulates.
use vstd::prelude::*;
use crate::scalar::{Scalar, Vec3, INFINITY_BITS, NEG_INFINITY_BITS};

verus! {

/// An axis-aligned box by its two corners.
#[derive(Clone, Copy, Debug, PartialEq, Eq, Structural)]
pub struct AABB {
    pub min: Vec3,
    pub max: Vec3,
}

impl AABB {
    /// The box of no points: `min` at positive and `max` at negative infinity
    /// on every axis.
    pub open spec fn spec_empty() -> AABB {
        AABB {
            min: Vec3 {
                x: Scalar { bits: INFINITY_BITS },
                y: Scalar { bits: INFINITY_BITS },
                z: Scalar { bits: INFINITY_BITS },
            },
            max: Vec3 {
                x: Scalar { bits: NEG_INFINITY_BITS },
                y: Scalar { bits: NEG_INFINITY_BITS },
                z: Scalar { bits: NEG_INFINITY_BITS },
            },
        }
    }

    /// The box grown to hold `p`: the minimum and the maximum per axis, a NaN
    /// component of `p` leaving its axis unchanged.
    pub open spec fn spec_grow(self, p: Vec3) -> AABB {
        AABB {
            min: Vec3 {
                x: self.min.x.spec_min(p.x),
                y: self.min.y.spec_min(p.y),
                z: self.min.z.spec_min(p.z),
            },
            max: Vec3 {
                x: self.max.x.spec_max(p.x),
                y: self.max.y.spec_max(p.y),
                z: self.max.z.spec_max(p.z),
            },
        }
    }

    /// The box of a sequence of points: the empty box grown by each point in
    /// turn.
    pub open spec fn of_points(points: Seq<Vec3>) -> AABB
        decreases points.len(),
    {
        if points.len() == 0 {
            AABB::spec_empty()
        } else {
            AABB::of_points(points.drop_last()).spec_grow(points.last())
        }
    }

    /// The box grown by each point of a sequence in turn.
    pub open spec fn spec_grow_all(self, points: Seq<Vec3>) -> AABB
        decreases points.len(),
    {
        if points.len() == 0 {
            self
        } else {
            self.spec_grow_all(points.drop_last()).spec_grow(points.last())
        }
    }

    /// `p` lies between the corners on every axis.
    pub open spec fn contains(self, p: Vec3) -> bool {
        &&& self.min.x.le(p.x) && p.x.le(self.max.x)
        &&& self.min.y.le(p.y) && p.y.le(self.max.y)
        &&& self.min.z.le(p.z) && p.z.le(self.max.z)
    }

    /// `min` is at most `max` on every axis.
    pub open spec fn is_ordered(self) -> bool {
        &&& self.min.x.le(self.max.x)
        &&& self.min.y.le(self.max.y)
        &&& self.min.z.le(self.max.z)
    }

    /// No corner component is a NaN.
    pub open spec fn is_sound(self) -> bool {
        &&& self.min.is_numeric()
        &&& self.max.is_numeric()
    }

    /// The box with the given corners.
    pub fn new(min: Vec3, max: Vec3) -> (r: AABB)
        ensures
            r.min == min,
            r.max == max,
    {
        AABB { min, max }
    }

    /// The box of no points.
    #[verifier::when_used_as_spec(spec_empty)]
    pub fn empty() -> (r: AABB)
        ensures
            r == AABB::spec_empty(),
    {
        AABB {
            min: Vec3 {
                x: Scalar { bits: INFINITY_BITS },
                y: Scalar { bits: INFINITY_BITS },
                z: Scalar { bits: INFINITY_BITS },
            },
            max: Vec3 {
                x: Scalar { bits: NEG_INFINITY_BITS },
                y: Scalar { bits: NEG_INFINITY_BITS },
                z: Scalar { bits: NEG_INFINITY_BITS },
            },
        }
    }

    /// Grows the box to hold `p`.
    pub fn grow(&mut self, p: Vec3)
        ensures
            *final(self) == old(self).spec_grow(p),
    {
        self.min = Vec3 {
            x: self.min.x.min(p.x),
            y: self.min.y.min(p.y),
            z: self.min.z.min(p.z),
        };
        self.max = Vec3 {
            x: self.max.x.max(p.x),
            y: self.max.y.max(p.y),
            z: self.max.z.max(p.z),
        };
    }

    /// Grows the box to hold each of the points.
    pub fn grow_all(&mut self, points: &Vec<Vec3>)
        ensures
            *final(self) == old(self).spec_grow_all(points@),
    {
        let mut i: usize = 0;
        assert(points@.take(0) =~= Seq::<Vec3>::empty());
        while i < points.len()
            invariant
                i <= points@.len(),
                *self == old(self).spec_grow_all(points@.take(i as int)),
            decreases points@.len() - i,
        {
            assert(points@.take(i + 1).drop_last() =~= points@.take(i as int));
            self.grow(points[i]);
            i += 1;
        }
        assert(points@.take(i as int) =~= points@);
    }

    /// The box of two sequences of points, one after the other, is the box
    /// of the first grown by the points of the second.
    pub proof fn lemma_of_points_concat(a: Seq<Vec3>, b: Seq<Vec3>)
        ensures
            AABB::of_points(a + b) == AABB::of_points(a).spec_grow_all(b),
        decreases b.len(),
    {
        if b.len() == 0 {
            assert(a + b =~= a);
        } else {
            AABB::lemma_of_points_concat(a, b.drop_last());
            assert((a + b).drop_last() =~= a + b.drop_last());
        }
    }

    /// `of_points` of a sequence extended by one point.
    pub proof fn lemma_of_points_push(points: Seq<Vec3>, p: Vec3)
        ensures
            AABB::of_points(points.push(p)) == AABB::of_points(points).spec_grow(p),
    {
        assert(points.push(p).drop_last() =~= points);
    }

    /// The corners of the box of any points are no NaN.
    pub proof fn lemma_of_points_sound(points: Seq<Vec3>)
        ensures
            AABB::of_points(points).is_sound(),
        decreases points.len(),
    {
        if points.len() > 0 {
            AABB::lemma_of_points_sound(points.drop_last());
        }
    }

    /// The box of any points holds each of them that has no NaN component,
    /// and is ordered, `min <= max` on every axis, if there is such a point.
    pub proof fn lemma_bounds_points(points: Seq<Vec3>)
        ensures
            forall|i: int|
                0 <= i < points.len() && (#[trigger] points[i]).is_numeric() ==> AABB::of_points(
                    points,
                ).contains(points[i]),
            (exists|i: int| 0 <= i < points.len() && (#[trigger] points[i]).is_numeric())
                ==> AABB::of_points(points).is_ordered(),
        decreases points.len(),
    {
        if points.len() > 0 {
            let rest = points.drop_last();
            AABB::lemma_of_points_sound(rest);
            AABB::lemma_bounds_points(rest);
            assert forall|i: int|
                0 <= i < points.len() && (#[trigger] points[i]).is_numeric() implies AABB::of_points(
                points,
            ).contains(points[i]) by {
                if i < rest.len() {
                    assert(rest[i] == points[i]);
                    assert(AABB::of_points(rest).contains(rest[i]));
                }
            }
            if exists|i: int| 0 <= i < points.len() && (#[trigger] points[i]).is_numeric() {
                let w = choose|i: int| 0 <= i < points.len() && (#[trigger] points[i]).is_numeric();
                assert(AABB::of_points(points).contains(points[w]));
            }
        }
    }
}

} // verus!

use vstd::prelude::*;

use crate::board::Position;

verus! {

/// A coarse tag that collidable objects use to pick the collisions they react to.
#[derive(Clone, Copy, Debug, PartialEq, Eq, Structural)]
pub enum ColliderLayer {
    Player,
    Food,
}

/// One piece of hitbox geometry.
#[derive(Clone, Copy, Debug, PartialEq, Eq, Structural)]
pub enum ColliderType {
    AABB(AABB),
}

/// An axis-aligned box; its edges belong to it.
#[derive(Clone, Copy, Debug, PartialEq, Eq, Structural)]
pub struct AABB {
    pub min: Position,
    pub max: Position,
}

/// Whether two closed boxes share at least one point.
pub open spec fn boxes_overlap(a: AABB, b: AABB) -> bool {
    !(a.max.x < b.min.x || a.min.x > b.max.x || a.max.y < b.min.y || a.min.y > b.max.y)
}

/// Whether `a` shares a point with any of `boxes` from index `start` on.
pub open spec fn hits_any(a: AABB, boxes: Seq<ColliderType>, start: int) -> bool {
    exists|i: int| start <= i < boxes.len() && boxes_overlap(a, #[trigger] boxes[i]->AABB_0)
}

impl AABB {
    pub open spec fn wf(&self) -> bool {
        self.min.x <= self.max.x && self.min.y <= self.max.y
    }

    /// The box with corners `min` and `max`.
    pub fn new(min: Position, max: Position) -> (r: Self)
        requires
            min.x <= max.x,
            min.y <= max.y,
        ensures
            r == (AABB { min, max }),
            r.wf(),
    {
        AABB { min, max }
    }

    /// Whether the two boxes overlap; touching edges count.
    pub fn intersects(&self, other: &AABB) -> (r: bool)
        ensures
            r == boxes_overlap(*self, *other),
    {
        !(self.max.x < other.min.x || self.min.x > other.max.x || self.max.y < other.min.y
            || self.min.y > other.max.y)
    }
}

/// Whether `a` overlaps any of `boxes` from index `start` on.
pub fn intersects_any(a: &AABB, boxes: &Vec<ColliderType>, start: usize) -> (r: bool)
    ensures
        r == hits_any(*a, boxes@, start as int),
{
    let mut i: usize = start;
    while i < boxes.len()
        invariant
            start <= i,
            forall|k: int| start <= k < i && k < boxes@.len() ==> !boxes_overlap(*a, #[trigger] boxes@[k]->AABB_0),
        decreases boxes@.len() - i,
    {
        let ColliderType::AABB(b) = &boxes[i];
        if a.intersects(b) {
            return true;
        }
        i = i + 1;
    }
    false
}

} // verus!

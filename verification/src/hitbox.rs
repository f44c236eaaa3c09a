//! Axis-aligned bounding rectangles in subunit coordinates.

use vstd::prelude::*;

verus! {

use crate::units::{Vec2, unit_ok};

/// An axis-aligned rectangle given by its minimum and maximum corners, in
/// array-space subunits.
#[derive(Clone, Copy, PartialEq, Eq, Structural, Debug)]
pub struct Hitbox {
    pub min: Vec2,
    pub max: Vec2,
}

impl Hitbox {
    /// The corners are ordered on both axes and within range.
    pub open spec fn wf(self) -> bool {
        &&& self.min.x <= self.max.x
        &&& self.min.y <= self.max.y
        &&& self.min.wf()
        &&& self.max.wf()
    }

    /// `p` lies inside the rectangle, bounds included.
    pub open spec fn contains_spec(self, p: Vec2) -> bool {
        &&& self.min.x <= p.x <= self.max.x
        &&& self.min.y <= p.y <= self.max.y
    }

    /// The rectangles overlap or touch: they intersect unless one lies
    /// strictly to one side of the other on some axis.
    pub open spec fn intersects_spec(self, other: Hitbox) -> bool {
        !(self.max.x < other.min.x || self.min.x > other.max.x || self.max.y < other.min.y
            || self.min.y > other.max.y)
    }

    /// `other` lies entirely inside the rectangle, bounds included.
    pub open spec fn contains_hitbox_spec(self, other: Hitbox) -> bool {
        &&& self.min.x <= other.min.x && other.max.x <= self.max.x
        &&& self.min.y <= other.min.y && other.max.y <= self.max.y
    }

    /// Build a hitbox from ordered corners. A degenerate or inverted
    /// rectangle indicates an authoring bug, so construction demands strict
    /// order on both axes.
    pub fn new(min: Vec2, max: Vec2) -> (r: Hitbox)
        requires
            min.x < max.x,
            min.y < max.y,
            min.wf(),
            max.wf(),
        ensures
            r.min == min,
            r.max == max,
            r.wf(),
    {
        Hitbox { min, max }
    }

    /// Build a hitbox spanning two arbitrary corner points, sorting each
    /// axis so that the result is well-formed.
    pub fn from_corners(p0: Vec2, p1: Vec2) -> (r: Hitbox)
        requires
            p0.wf(),
            p1.wf(),
        ensures
            r.min.x == if p0.x <= p1.x { p0.x } else { p1.x },
            r.min.y == if p0.y <= p1.y { p0.y } else { p1.y },
            r.max.x == if p0.x <= p1.x { p1.x } else { p0.x },
            r.max.y == if p0.y <= p1.y { p1.y } else { p0.y },
            r.wf(),
    {
        let min_x = if p0.x <= p1.x { p0.x } else { p1.x };
        let max_x = if p0.x <= p1.x { p1.x } else { p0.x };
        let min_y = if p0.y <= p1.y { p0.y } else { p1.y };
        let max_y = if p0.y <= p1.y { p1.y } else { p0.y };
        Hitbox { min: Vec2 { x: min_x, y: min_y }, max: Vec2 { x: max_x, y: max_y } }
    }

    /// Left edge (minimum x).
    pub fn x1(&self) -> (r: i64)
        ensures
            r == self.min.x,
    {
        self.min.x
    }

    /// Top edge in array space (minimum y).
    pub fn y1(&self) -> (r: i64)
        ensures
            r == self.min.y,
    {
        self.min.y
    }

    /// Right edge (maximum x).
    pub fn x2(&self) -> (r: i64)
        ensures
            r == self.max.x,
    {
        self.max.x
    }

    /// Bottom edge in array space (maximum y).
    pub fn y2(&self) -> (r: i64)
        ensures
            r == self.max.y,
    {
        self.max.y
    }

    /// Extent along the x axis.
    pub fn width(&self) -> (r: i64)
        requires
            self.wf(),
        ensures
            r == self.max.x - self.min.x,
    {
        self.max.x - self.min.x
    }

    /// Extent along the y axis.
    pub fn height(&self) -> (r: i64)
        requires
            self.wf(),
        ensures
            r == self.max.y - self.min.y,
    {
        self.max.y - self.min.y
    }

    /// Move the hitbox by `delta`.
    pub fn translate(&mut self, delta: Vec2)
        requires
            old(self).wf(),
            unit_ok(old(self).min.x + delta.x),
            unit_ok(old(self).max.x + delta.x),
            unit_ok(old(self).min.y + delta.y),
            unit_ok(old(self).max.y + delta.y),
        ensures
            final(self).min.x == old(self).min.x + delta.x,
            final(self).min.y == old(self).min.y + delta.y,
            final(self).max.x == old(self).max.x + delta.x,
            final(self).max.y == old(self).max.y + delta.y,
            final(self).wf(),
    {
        self.min.x = self.min.x + delta.x;
        self.min.y = self.min.y + delta.y;
        self.max.x = self.max.x + delta.x;
        self.max.y = self.max.y + delta.y;
    }

    /// Whether `point` lies inside the hitbox, bounds included.
    pub fn contains(&self, point: Vec2) -> (r: bool)
        ensures
            r == self.contains_spec(point),
    {
        point.x >= self.min.x && point.x <= self.max.x && point.y >= self.min.y && point.y
            <= self.max.y
    }

    /// Whether the two hitboxes overlap or touch.
    pub fn intersects(&self, other: &Hitbox) -> (r: bool)
        ensures
            r == self.intersects_spec(*other),
    {
        !(self.max.x < other.min.x || self.min.x > other.max.x || self.max.y < other.min.y
            || self.min.y > other.max.y)
    }

    /// Whether `other` lies entirely inside this hitbox, bounds included.
    pub fn contains_hitbox(&self, other: Hitbox) -> (r: bool)
        ensures
            r == self.contains_hitbox_spec(other),
    {
        self.min.x <= other.min.x && other.max.x <= self.max.x && self.min.y <= other.min.y
            && other.max.y <= self.max.y
    }
}

} // verus!

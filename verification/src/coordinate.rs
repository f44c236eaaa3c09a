//! Grid-cell addresses in array space.

use vstd::prelude::*;

verus! {

use crate::units::{
    Vec2, SUBUNITS, floor_to_cell, floor_units, round_to_cell, round_units, trunc_to_cell,
    trunc_units, unit_ok,
};

/// A two-dimensional grid coordinate in world array space.
#[derive(Clone, Copy, PartialEq, Eq, Structural, Hash, Debug)]
pub struct Coordinate {
    pub x: i32,
    pub y: i32,
}

impl Coordinate {
    pub fn new(x: i32, y: i32) -> (r: Coordinate)
        ensures
            r.x == x,
            r.y == y,
    {
        Coordinate { x, y }
    }

    /// Subunit position of this cell's top-left corner.
    pub fn to_vec2(self) -> (r: Vec2)
        ensures
            r.x == self.x * SUBUNITS,
            r.y == self.y * SUBUNITS,
    {
        Vec2 { x: (self.x as i64) * SUBUNITS, y: (self.y as i64) * SUBUNITS }
    }

    /// The cell containing `v`, flooring each component: the canonical
    /// conversion used for map lookups.
    pub fn from_vec2_floor(v: Vec2) -> (r: Coordinate)
        requires
            unit_ok(v.x as int),
            unit_ok(v.y as int),
        ensures
            r.x == floor_units(v.x as int),
            r.y == floor_units(v.y as int),
    {
        Coordinate { x: floor_to_cell(v.x), y: floor_to_cell(v.y) }
    }

    /// The cell whose index is nearest to each component of `v`, halves
    /// rounded away from zero.
    pub fn from_vec2_round(v: Vec2) -> (r: Coordinate)
        requires
            unit_ok(v.x as int),
            unit_ok(v.y as int),
        ensures
            r.x == round_units(v.x as int),
            r.y == round_units(v.y as int),
    {
        Coordinate { x: round_to_cell(v.x), y: round_to_cell(v.y) }
    }

    /// The cell index obtained by truncating each component of `v` toward
    /// zero.
    pub fn from_vec2_trunc(v: Vec2) -> (r: Coordinate)
        requires
            unit_ok(v.x as int),
            unit_ok(v.y as int),
        ensures
            r.x == trunc_units(v.x as int),
            r.y == trunc_units(v.y as int),
    {
        Coordinate { x: trunc_to_cell(v.x), y: trunc_to_cell(v.y) }
    }
}

} // verus!

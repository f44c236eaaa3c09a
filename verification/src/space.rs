//! Conversion between the two coordinate spaces.
//!
//! Array space has its origin at the top-left tile of the map and its y axis
//! growing downward; it matches the map's grid indexing and all collision math
//! happens in it. Render space has its origin at the centre of the map and its
//! y axis growing upward; it is what on-screen placement consumes. The two
//! spaces differ by an offset of half the map and a flipped y axis.

use vstd::prelude::*;

verus! {

use crate::units::Vec2;

/// Number of tiles along each edge of the (square) world map.
pub const MAP_DIM: i32 = 11;

/// Half the map's extent, in subunits: the translation between the array-space
/// origin (top-left corner) and the render-space origin (map centre).
pub const OFFSET_UNITS: i64 = 5500;

/// Array-space x for a render-space x.
pub open spec fn array_x_from_render_x(x: int) -> int {
    x + OFFSET_UNITS
}

/// Array-space y for a render-space y: the y axis flips and the origin moves.
pub open spec fn array_y_from_render_y(y: int) -> int {
    -(y - OFFSET_UNITS)
}

/// Render-space x for an array-space x.
pub open spec fn render_x_from_array_x(x: int) -> int {
    x - OFFSET_UNITS
}

/// Render-space y for an array-space y.
pub open spec fn render_y_from_array_y(y: int) -> int {
    -(y - OFFSET_UNITS)
}

/// Negation: the single place that accounts for array space and render space
/// orienting their y axes oppositely.
pub fn flipped_y_axis(val: i64) -> (r: i64)
    requires
        val > i64::MIN,
    ensures
        r == -val,
{
    -val
}

/// Array-space position of a render-space position.
pub fn world_array_position_from_render_position(x: i64, y: i64) -> (r: Vec2)
    requires
        x + OFFSET_UNITS <= i64::MAX,
        y - OFFSET_UNITS >= i64::MIN,
        -(y - OFFSET_UNITS) <= i64::MAX,
    ensures
        r.x == array_x_from_render_x(x as int),
        r.y == array_y_from_render_y(y as int),
{
    Vec2 { x: x + OFFSET_UNITS, y: -(y - OFFSET_UNITS) }
}

/// Render-space position of an array-space position.
pub fn render_position_from_world_array_position(x: i64, y: i64) -> (r: Vec2)
    requires
        x - OFFSET_UNITS >= i64::MIN,
        y - OFFSET_UNITS >= i64::MIN,
        -(y - OFFSET_UNITS) <= i64::MAX,
    ensures
        r.x == render_x_from_array_x(x as int),
        r.y == render_y_from_array_y(y as int),
{
    Vec2 { x: x - OFFSET_UNITS, y: -(y - OFFSET_UNITS) }
}

/// Render-space x for an array-space x.
pub fn render_x_from_world_array_x(x: i64) -> (r: i64)
    requires
        x - OFFSET_UNITS >= i64::MIN,
    ensures
        r == render_x_from_array_x(x as int),
{
    x - OFFSET_UNITS
}

/// Render-space y for an array-space y.
pub fn render_y_from_world_array_y(y: i64) -> (r: i64)
    requires
        y - OFFSET_UNITS >= i64::MIN,
        -(y - OFFSET_UNITS) <= i64::MAX,
    ensures
        r == render_y_from_array_y(y as int),
{
    let f = flipped_y_axis(y - OFFSET_UNITS);
    f
}

/// The two conversions are mutually inverse: converting a point to array
/// space and back to render space gives the point again, and likewise in the
/// other order.
pub proof fn lemma_space_round_trip(x: int, y: int)
    ensures
        render_x_from_array_x(array_x_from_render_x(x)) == x,
        render_y_from_array_y(array_y_from_render_y(y)) == y,
        array_x_from_render_x(render_x_from_array_x(x)) == x,
        array_y_from_render_y(render_y_from_array_y(y)) == y,
{
}

} // verus!

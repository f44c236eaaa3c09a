//! Collision-aware movement resolution.
//!
//! Per tick, an entity's intent and speed give a desired translation. The
//! resolver clamps that translation, one axis at a time, against the
//! obstructing tiles near the entity's footprint, so that the footprint ends
//! flush against the nearest obstruction instead of penetrating it.

use vstd::prelude::*;

verus! {

use vstd::arithmetic::div_mod::{
    lemma_div_is_ordered, lemma_fundamental_div_mod, lemma_fundamental_div_mod_converse,
};
use crate::coordinate::Coordinate;
use crate::environment::{tile_hitbox, Direction, WorldMap};
use crate::hitbox::Hitbox;
use crate::space::{
    render_x_from_world_array_x, render_y_from_world_array_y,
    world_array_position_from_render_position, OFFSET_UNITS,
};
use crate::units::{
    ceil_to_cell, ceil_units, cell_ok, floor_to_cell, floor_units, lemma_floor_units_bounds,
    mul_units, pos_ok, unit_ok, Vec2,
};

/// Movement parameters of one controlled entity.
pub struct MovementController {
    /// The direction the entity wants to move in, a unit-or-zero vector in
    /// subunits (so each component lies in `[-SUBUNITS, SUBUNITS]`), written
    /// by input capture once per tick.
    pub intent: Vec2,
    /// Maximum speed in subunits per second.
    pub max_speed: i64,
    /// Full width and height of the entity's collision footprint, centred on
    /// its position; an entity without one cannot be resolved.
    pub girth: Option<Vec2>,
}

impl Default for MovementController {
    /// At rest, at three tiles per second, without a footprint.
    fn default() -> (r: MovementController)
        ensures
            r.intent == (Vec2 { x: 0, y: 0 }),
            r.max_speed == 3000,
            r.girth is None,
    {
        MovementController { intent: Vec2 { x: 0, y: 0 }, max_speed: 3000, girth: None }
    }
}

/// The obstruction entry recorded for coordinate `c` of `m`: the occupied
/// tile square if the map has an obstructing tile there, nothing if the cell
/// is free or outside the map.
pub open spec fn obstruction_entry(m: WorldMap, c: Coordinate) -> Option<Hitbox> {
    match m.at_spec(c) {
        Some(t) => if t.is_obstruction_spec() {
            Some(tile_hitbox(c.x as int, c.y as int))
        } else {
            None
        },
        None => None,
    }
}

/// Contents of a snapshot over the inclusive cell rectangle `[lo, hi]` of
/// `m`: one entry per covered coordinate.
pub open spec fn gather_spec(m: WorldMap, lo: Coordinate, hi: Coordinate) -> Map<
    Coordinate,
    Option<Hitbox>,
> {
    Map::new(
        |c: Coordinate| lo.x <= c.x <= hi.x && lo.y <= c.y <= hi.y,
        |c: Coordinate| obstruction_entry(m, c),
    )
}

/// Every hitbox recorded in a snapshot is well-formed.
pub open spec fn snapshot_hitboxes_wf(snap: Map<Coordinate, Option<Hitbox>>) -> bool {
    forall|c: Coordinate|
        snap.contains_key(c) ==> match #[trigger] snap[c] {
            Some(h) => h.wf(),
            None => true,
        }
}

/// A materialized mapping from the cell coordinates near a footprint to the
/// obstruction hitbox (or none) found at each, taken once per axis-resolution
/// pass. Entries cover the inclusive rectangle `[lo, hi]`, stored column by
/// column.
pub struct ObstructionSnapshot {
    pub lo: Coordinate,
    pub hi: Coordinate,
    pub cells: Vec<Option<Hitbox>>,
}

impl ObstructionSnapshot {
    /// The coordinate lies in the covered rectangle.
    pub open spec fn covers(self, c: Coordinate) -> bool {
        self.lo.x <= c.x <= self.hi.x && self.lo.y <= c.y <= self.hi.y
    }

    /// Cells per column of the covered rectangle.
    pub open spec fn col_height(self) -> int {
        self.hi.y - self.lo.y + 1
    }

    /// Index of coordinate `(cx, cy)` in the backing vector.
    pub open spec fn index_of(self, cx: int, cy: int) -> int {
        (cx - self.lo.x) * self.col_height() + (cy - self.lo.y)
    }

    /// The rectangle is ordered, its cell indices are in range, and the
    /// backing vector holds exactly one entry per covered cell.
    pub open spec fn wf(self) -> bool {
        &&& self.lo.x <= self.hi.x
        &&& self.lo.y <= self.hi.y
        &&& cell_ok(self.lo.x as int)
        &&& cell_ok(self.lo.y as int)
        &&& cell_ok(self.hi.x as int)
        &&& cell_ok(self.hi.y as int)
        &&& self.cells@.len() == (self.hi.x - self.lo.x + 1) * self.col_height()
    }
}

impl View for ObstructionSnapshot {
    type V = Map<Coordinate, Option<Hitbox>>;

    /// The mapping a snapshot stands for: defined exactly on the covered
    /// coordinates.
    open spec fn view(&self) -> Map<Coordinate, Option<Hitbox>> {
        Map::new(
            |c: Coordinate| self.covers(c),
            |c: Coordinate| self.cells@[self.index_of(c.x as int, c.y as int)],
        )
    }
}

impl ObstructionSnapshot {
    /// Entry recorded for `c`: `None` if `c` is outside the covered
    /// rectangle, otherwise the recorded obstruction entry.
    pub fn get(&self, c: Coordinate) -> (r: Option<Option<Hitbox>>)
        requires
            self.wf(),
        ensures
            match r {
                Some(e) => self@.contains_key(c) && self@[c] == e,
                None => !self@.contains_key(c),
            },
    {
        if self.lo.x <= c.x && c.x <= self.hi.x && self.lo.y <= c.y && c.y <= self.hi.y {
            let dx = (c.x as i64 - self.lo.x as i64) as usize;
            let dy = (c.y as i64 - self.lo.y as i64) as usize;
            let h = (self.hi.y as i64 - self.lo.y as i64 + 1) as usize;
            let n = self.cells.len();
            proof {
                lemma_snapshot_index(
                    self.lo.x as int,
                    self.lo.y as int,
                    self.col_height(),
                    c.x as int,
                    c.y as int,
                    self.hi.x + 1,
                );
                assert(dx * h + dy == self.index_of(c.x as int, c.y as int));
                assert(dx * h < usize::MAX && dx * h + dy < self.cells@.len());
            }
            Some(self.cells[dx * h + dy])
        } else {
            None
        }
    }
}

/// The inclusive cell rectangle a footprint's obstruction snapshot covers:
/// the footprint's bounding cells, extended one cell outward past the floored
/// minimum corner and up to the ceiled maximum corner.
pub open spec fn surroundings_spec(h: Hitbox) -> (Coordinate, Coordinate) {
    (
        Coordinate {
            x: (floor_units(h.min.x as int) - 1) as i32,
            y: (floor_units(h.min.y as int) - 1) as i32,
        },
        Coordinate { x: ceil_units(h.max.x as int) as i32, y: ceil_units(h.max.y as int) as i32 },
    )
}

/// Bounding cell range of a footprint, per `surroundings_spec`.
pub fn hitbox_surroundings(hitbox: &Hitbox) -> (r: (Coordinate, Coordinate))
    requires
        hitbox.wf(),
        pos_ok(hitbox.min.x as int),
        pos_ok(hitbox.min.y as int),
        pos_ok(hitbox.max.x as int),
        pos_ok(hitbox.max.y as int),
    ensures
        r == surroundings_spec(*hitbox),
        r.0.x <= r.1.x,
        r.0.y <= r.1.y,
        cell_ok(r.0.x as int),
        cell_ok(r.0.y as int),
        cell_ok(r.1.x as int),
        cell_ok(r.1.y as int),
{
    let min_x = floor_to_cell(hitbox.min.x) - 1;
    let max_x = ceil_to_cell(hitbox.max.x);
    let min_y = floor_to_cell(hitbox.min.y) - 1;
    let max_y = ceil_to_cell(hitbox.max.y);
    proof {
        lemma_floor_le_ceil(hitbox.min.x as int, hitbox.max.x as int);
        lemma_floor_le_ceil(hitbox.min.y as int, hitbox.max.y as int);
    }
    (Coordinate { x: min_x, y: min_y }, Coordinate { x: max_x, y: max_y })
}

/// For `a <= b`, the floor cell of `a` is at or below the ceiling cell of
/// `b`.
proof fn lemma_floor_le_ceil(a: int, b: int)
    requires
        a <= b,
    ensures
        floor_units(a) <= ceil_units(b),
{
    lemma_div_is_ordered(a, b, 1000);
    assert(floor_units(b) <= ceil_units(b)) by {
        vstd::arithmetic::div_mod::lemma_fundamental_div_mod(b, 1000);
        let q = b / 1000;
        let r = b % 1000;
        if r == 0 {
            assert(-b == (-q) * 1000 + 0) by (nonlinear_arith)
                requires b == q * 1000 + 0
            ;
            vstd::arithmetic::div_mod::lemma_fundamental_div_mod_converse(-b, 1000, -q, 0);
        } else {
            assert(-b == (-q - 1) * 1000 + (1000 - r)) by (nonlinear_arith)
                requires b == q * 1000 + r
            ;
            vstd::arithmetic::div_mod::lemma_fundamental_div_mod_converse(-b, 1000, -q - 1, 1000 - r);
        }
    }
}

/// Walk the surrounding cell rectangle of `world_map` and record, for every
/// covered coordinate, the obstruction hitbox found there or `None`.
pub fn gather_map_obstructions(
    surroundings: &(Coordinate, Coordinate),
    world_map: &WorldMap,
) -> (r: ObstructionSnapshot)
    requires
        world_map.wf(),
        surroundings.0.x <= surroundings.1.x,
        surroundings.0.y <= surroundings.1.y,
        cell_ok(surroundings.0.x as int),
        cell_ok(surroundings.0.y as int),
        cell_ok(surroundings.1.x as int),
        cell_ok(surroundings.1.y as int),
        (surroundings.1.x - surroundings.0.x + 1) * (surroundings.1.y - surroundings.0.y + 1)
            <= usize::MAX,
    ensures
        r.wf(),
        r.lo == surroundings.0,
        r.hi == surroundings.1,
        r@ == gather_spec(*world_map, surroundings.0, surroundings.1),
        snapshot_hitboxes_wf(r@),
{
    let lo = surroundings.0;
    let hi = surroundings.1;
    let ghost height: int = hi.y - lo.y + 1;
    let mut cells: Vec<Option<Hitbox>> = Vec::new();
    let mut x: i32 = lo.x;
    while x <= hi.x
        invariant
            world_map.wf(),
            lo.x <= x <= hi.x + 1,
            lo.x <= hi.x,
            lo.y <= hi.y,
            cell_ok(lo.x as int),
            cell_ok(lo.y as int),
            cell_ok(hi.x as int),
            cell_ok(hi.y as int),
            height == hi.y - lo.y + 1,
            (hi.x - lo.x + 1) * height <= usize::MAX,
            cells@.len() == (x - lo.x) * height,
            forall|cx: int, cy: int|
                lo.x <= cx < x && lo.y <= cy <= hi.y ==> #[trigger] cells@[(cx - lo.x) * height
                    + (cy - lo.y)] == obstruction_entry(
                    *world_map,
                    Coordinate { x: cx as i32, y: cy as i32 },
                ),
        decreases hi.x + 1 - x,
    {
        let mut y: i32 = lo.y;
        proof {
            assert((x - lo.x) * height + height <= (hi.x - lo.x + 1) * height) by (nonlinear_arith)
                requires
                    x <= hi.x,
                    lo.x <= x,
                    height > 0,
            ;
        }
        while y <= hi.y
            invariant
                world_map.wf(),
                lo.y <= y <= hi.y + 1,
                lo.x <= x <= hi.x,
                lo.x <= hi.x,
                lo.y <= hi.y,
                cell_ok(lo.x as int),
                cell_ok(lo.y as int),
                cell_ok(hi.x as int),
                cell_ok(hi.y as int),
                height == hi.y - lo.y + 1,
                (x - lo.x) * height + height <= usize::MAX,
                cells@.len() == (x - lo.x) * height + (y - lo.y),
                forall|cx: int, cy: int|
                    lo.x <= cx < x && lo.y <= cy <= hi.y ==> #[trigger] cells@[(cx - lo.x) * height
                        + (cy - lo.y)] == obstruction_entry(
                        *world_map,
                        Coordinate { x: cx as i32, y: cy as i32 },
                    ),
                forall|cy: int|
                    lo.y <= cy < y ==> #[trigger] cells@[(x - lo.x) * height + (cy - lo.y)]
                        == obstruction_entry(*world_map, Coordinate { x: x as i32, y: cy as i32 }),
            decreases hi.y + 1 - y,
        {
            let coordinate = Coordinate::new(x, y);
            let entry: Option<Hitbox> = match world_map.at(coordinate) {
                Some(tile) => if tile.is_obstruction() {
                    Some(tile.hitbox(coordinate))
                } else {
                    None
                },
                None => None,
            };
            let ghost cells0 = cells@;
            cells.push(entry);
            proof {
                assert forall|cx: int, cy: int|
                    lo.x <= cx < x && lo.y <= cy <= hi.y implies #[trigger] cells@[(cx - lo.x)
                    * height + (cy - lo.y)] == obstruction_entry(
                    *world_map,
                    Coordinate { x: cx as i32, y: cy as i32 },
                ) by {
                    lemma_snapshot_index(lo.x as int, lo.y as int, height, cx, cy, x as int);
                    assert((cx - lo.x) * height + (cy - lo.y) < cells0.len()) by (nonlinear_arith)
                        requires
                            (cx - lo.x) * height + (cy - lo.y) < (x - lo.x) * height,
                            cells0.len() == (x - lo.x) * height + (y - lo.y),
                            y >= lo.y,
                    ;
                    assert(cells@[(cx - lo.x) * height + (cy - lo.y)] == cells0[(cx - lo.x) * height
                        + (cy - lo.y)]);
                }
                assert forall|cy: int|
                    lo.y <= cy < y + 1 implies #[trigger] cells@[(x - lo.x) * height + (cy - lo.y)]
                    == obstruction_entry(*world_map, Coordinate { x: x as i32, y: cy as i32 }) by {
                    if cy < y {
                        assert(cells@[(x - lo.x) * height + (cy - lo.y)] == cells0[(x - lo.x)
                            * height + (cy - lo.y)]);
                    } else {
                        assert((x - lo.x) * height + (cy - lo.y) == cells0.len());
                        assert(cells@[(x - lo.x) * height + (cy - lo.y)] == entry);
                        assert(entry == obstruction_entry(*world_map, coordinate));
                    }
                }
            }
            y = y + 1;
        }
        x = x + 1;
        proof {
            assert((x - 1 - lo.x) * height + height == (x - lo.x) * height) by (nonlinear_arith);
            assert forall|cx: int, cy: int|
                lo.x <= cx < x && lo.y <= cy <= hi.y implies #[trigger] cells@[(cx - lo.x) * height
                + (cy - lo.y)] == obstruction_entry(
                *world_map,
                Coordinate { x: cx as i32, y: cy as i32 },
            ) by {
                if cx == x - 1 {
                    assert(cells@[(x - 1 - lo.x) * height + (cy - lo.y)] == obstruction_entry(
                        *world_map,
                        Coordinate { x: (x - 1) as i32, y: cy as i32 },
                    ));
                }
            }
        }
    }
    let r = ObstructionSnapshot { lo, hi, cells };
    proof {
        assert((hi.x + 1 - lo.x) * height == r.cells@.len());
        assert forall|c: Coordinate| r@.contains_key(c) implies r@[c] == gather_spec(
            *world_map,
            lo,
            hi,
        )[c] by {
            assert(r.cells@[r.index_of(c.x as int, c.y as int)] == obstruction_entry(
                *world_map,
                c,
            ));
        }
        assert(r@ =~= gather_spec(*world_map, lo, hi));
    }
    r
}

/// The smaller of two integers.
pub open spec fn min2(a: int, b: int) -> int {
    if a <= b {
        a
    } else {
        b
    }
}

/// The larger of two integers.
pub open spec fn max2(a: int, b: int) -> int {
    if a >= b {
        a
    } else {
        b
    }
}

/// Whether travelling further in direction `d` means an algebraically
/// greater coordinate, so that clamping toward the nearest obstruction takes
/// the minimum of the tentative and adjusted values (South, East) rather
/// than the maximum (North, West).
pub open spec fn dir_uses_min(d: Direction) -> bool {
    d == Direction::South || d == Direction::East
}

/// Tentative new centre coordinate along the axis of `d`: the footprint's
/// leading edge moved by `t`, pulled back to the centre by the half girth.
pub open spec fn dir_tentative(d: Direction, h: Hitbox, t: int, hg: Vec2) -> int {
    match d {
        Direction::North => h.min.y + t + hg.y,
        Direction::South => h.max.y + t - hg.y,
        Direction::East => h.max.x + t - hg.x,
        Direction::West => h.min.x + t + hg.x,
    }
}

/// Centre coordinate at which the footprint rests exactly flush against
/// obstruction `obs` when travelling in direction `d`: the obstruction's
/// near face offset by the half girth.
pub open spec fn dir_adjusted(d: Direction, obs: Hitbox, hg: Vec2) -> int {
    match d {
        Direction::North => obs.max.y + hg.y,
        Direction::South => obs.min.y - hg.y,
        Direction::East => obs.min.x - hg.x,
        Direction::West => obs.max.x + hg.x,
    }
}

/// The axis-sorted rectangle spanning the corner points `(x0, y0)` and
/// `(x1, y1)`.
pub open spec fn sorted_box(x0: int, y0: int, x1: int, y1: int) -> Hitbox {
    Hitbox {
        min: Vec2 { x: min2(x0, x1) as i64, y: min2(y0, y1) as i64 },
        max: Vec2 { x: max2(x0, x1) as i64, y: max2(y0, y1) as i64 },
    }
}

/// The collision area of a move: the thin rectangle swept between the
/// footprint's current leading edge and its tentative position, spanning the
/// footprint's full cross-axis extent.
pub open spec fn area_spec(d: Direction, h: Hitbox, t: int) -> Hitbox {
    match d {
        Direction::North => sorted_box(h.min.x as int, h.min.y + t, h.max.x as int, h.min.y as int),
        Direction::South => sorted_box(h.min.x as int, h.max.y as int, h.max.x as int, h.max.y + t),
        Direction::East => sorted_box(h.max.x as int, h.min.y as int, h.max.x + t, h.max.y as int),
        Direction::West => sorted_box(h.min.x + t, h.min.y as int, h.min.x as int, h.max.y as int),
    }
}

/// First cell column enumerated against the collision area.
pub open spec fn cells_lo_x(d: Direction, h: Hitbox, t: int) -> int {
    floor_units(area_spec(d, h, t).min.x as int)
}

/// Last cell column enumerated against the collision area.
pub open spec fn cells_hi_x(d: Direction, h: Hitbox, t: int) -> int {
    floor_units(area_spec(d, h, t).max.x as int)
}

/// First cell row enumerated against the collision area.
pub open spec fn cells_lo_y(d: Direction, h: Hitbox, t: int) -> int {
    floor_units(area_spec(d, h, t).min.y as int)
}

/// Last cell row enumerated against the collision area.
pub open spec fn cells_hi_y(d: Direction, h: Hitbox, t: int) -> int {
    floor_units(area_spec(d, h, t).max.y as int)
}

/// The coordinate key of cell `(cx, cy)`.
pub open spec fn cell_key(cx: int, cy: int) -> Coordinate {
    Coordinate { x: cx as i32, y: cy as i32 }
}

/// The snapshot records an obstruction at cell `(cx, cy)` whose hitbox
/// intersects `area`.
pub open spec fn cell_blocks(
    snap: Map<Coordinate, Option<Hitbox>>,
    area: Hitbox,
    cx: int,
    cy: int,
) -> bool {
    &&& snap.contains_key(cell_key(cx, cy))
    &&& snap[cell_key(cx, cy)] is Some
    &&& area.intersects_spec(snap[cell_key(cx, cy)]->0)
}

/// One clamping step of the resolver: fold the obstruction recorded at cell
/// `(cx, cy)`, if it blocks the collision area, into the running travel
/// coordinate `acc`.
pub open spec fn resolve_step(
    d: Direction,
    snap: Map<Coordinate, Option<Hitbox>>,
    h: Hitbox,
    t: int,
    hg: Vec2,
    acc: int,
    cx: int,
    cy: int,
) -> int {
    if cell_blocks(snap, area_spec(d, h, t), cx, cy) {
        let adj = dir_adjusted(d, snap[cell_key(cx, cy)]->0, hg);
        if dir_uses_min(d) {
            min2(acc, adj)
        } else {
            max2(acc, adj)
        }
    } else {
        acc
    }
}

/// Fold of `resolve_step` over the remaining cells of the collision area's
/// cell rectangle, walked column by column from `(cx, cy)` in the same order
/// the resolver enumerates them.
pub open spec fn resolve_from(
    d: Direction,
    snap: Map<Coordinate, Option<Hitbox>>,
    h: Hitbox,
    t: int,
    hg: Vec2,
    cx: int,
    cy: int,
    acc: int,
) -> int
    decreases cells_hi_x(d, h, t) + 1 - cx, cells_hi_y(d, h, t) + 1 - cy,
{
    if cx > cells_hi_x(d, h, t) {
        acc
    } else if cy > cells_hi_y(d, h, t) {
        resolve_from(d, snap, h, t, hg, cx + 1, cells_lo_y(d, h, t), acc)
    } else {
        resolve_from(d, snap, h, t, hg, cx, cy + 1, resolve_step(d, snap, h, t, hg, acc, cx, cy))
    }
}

/// The exact coordinate the resolver travels to along the axis of `d`: the
/// tentative centre coordinate clamped against every obstruction recorded in
/// `snap` whose hitbox intersects the collision area.
pub open spec fn resolve_spec(
    d: Direction,
    snap: Map<Coordinate, Option<Hitbox>>,
    h: Hitbox,
    t: int,
    hg: Vec2,
) -> int {
    resolve_from(
        d,
        snap,
        h,
        t,
        hg,
        cells_lo_x(d, h, t),
        cells_lo_y(d, h, t),
        dir_tentative(d, h, t, hg),
    )
}

/// The stopping centre coordinate flush against `obs` for direction `d`.
fn adjusted_stop(direction: Direction, obs: &Hitbox, half_girth: Vec2) -> (r: i64)
    requires
        obs.wf(),
        half_girth.wf(),
    ensures
        r == dir_adjusted(direction, *obs, half_girth),
{
    match direction {
        Direction::North => obs.y2() + half_girth.y,
        Direction::South => obs.y1() - half_girth.y,
        Direction::East => obs.x1() - half_girth.x,
        Direction::West => obs.x2() + half_girth.x,
    }
}

/// Returns the exact position in the given direction that should be traveled
/// to, avoiding clipping into environment objects, in world array subunits:
/// the tentative new leading-edge coordinate, clamped toward the nearest
/// recorded obstruction whose hitbox intersects the swept collision area,
/// and converted back to a centre-of-footprint coordinate.
pub fn apply_movement_in_one_direction(
    obstructions: &ObstructionSnapshot,
    directional_translation: (Direction, i64),
    hitbox: &Hitbox,
    half_girth: Vec2,
) -> (travel_to: i64)
    requires
        obstructions.wf(),
        snapshot_hitboxes_wf(obstructions@),
        hitbox.wf(),
        half_girth.wf(),
        unit_ok(hitbox.min.x + directional_translation.1),
        unit_ok(hitbox.max.x + directional_translation.1),
        unit_ok(hitbox.min.y + directional_translation.1),
        unit_ok(hitbox.max.y + directional_translation.1),
    ensures
        travel_to == resolve_spec(
            directional_translation.0,
            obstructions@,
            *hitbox,
            directional_translation.1 as int,
            half_girth,
        ),
{
    let direction = directional_translation.0;
    let t = directional_translation.1;
    let ghost snap = obstructions@;
    let ghost hh: Hitbox = *hitbox;
    let ghost ti: int = t as int;
    let mut travel_to: i64;
    let collision_area: Hitbox;
    let use_gt: bool;
    match direction {
        Direction::North => {
            travel_to = hitbox.y1() + t + half_girth.y;
            collision_area = Hitbox::from_corners(
                Vec2 { x: hitbox.x1(), y: hitbox.y1() + t },
                Vec2 { x: hitbox.x2(), y: hitbox.y1() },
            );
            use_gt = false;
        },
        Direction::South => {
            travel_to = hitbox.y2() + t - half_girth.y;
            collision_area = Hitbox::from_corners(
                Vec2 { x: hitbox.x1(), y: hitbox.y2() },
                Vec2 { x: hitbox.x2(), y: hitbox.y2() + t },
            );
            use_gt = true;
        },
        Direction::East => {
            travel_to = hitbox.x2() + t - half_girth.x;
            collision_area = Hitbox::from_corners(
                Vec2 { x: hitbox.x2(), y: hitbox.y1() },
                Vec2 { x: hitbox.x2() + t, y: hitbox.y2() },
            );
            use_gt = true;
        },
        Direction::West => {
            travel_to = hitbox.x1() + t + half_girth.x;
            collision_area = Hitbox::from_corners(
                Vec2 { x: hitbox.x1() + t, y: hitbox.y1() },
                Vec2 { x: hitbox.x1(), y: hitbox.y2() },
            );
            use_gt = false;
        },
    }
    proof {
        assert(collision_area == area_spec(direction, hh, ti));
        assert(travel_to == dir_tentative(direction, hh, ti, half_girth));
        assert(use_gt == dir_uses_min(direction));
    }
    let cmin_x = floor_to_cell(collision_area.x1());
    let cmax_x = floor_to_cell(collision_area.x2());
    let cmin_y = floor_to_cell(collision_area.y1());
    let cmax_y = floor_to_cell(collision_area.y2());
    proof {
        lemma_div_is_ordered(collision_area.min.x as int, collision_area.max.x as int, 1000);
        lemma_div_is_ordered(collision_area.min.y as int, collision_area.max.y as int, 1000);
        assert(cmin_x == cells_lo_x(direction, hh, ti));
        assert(cmax_x == cells_hi_x(direction, hh, ti));
        assert(cmin_y == cells_lo_y(direction, hh, ti));
        assert(cmax_y == cells_hi_y(direction, hh, ti));
    }
    let ghost goal: int = resolve_spec(direction, snap, hh, ti, half_girth);
    proof {
        assert(goal == resolve_from(
            direction,
            snap,
            hh,
            ti,
            half_girth,
            cmin_x as int,
            cmin_y as int,
            travel_to as int,
        ));
    }
    let mut cx: i32 = cmin_x;
    while cx <= cmax_x
        invariant
            obstructions.wf(),
            snapshot_hitboxes_wf(snap),
            snap == obstructions@,
            hh.wf(),
            half_girth.wf(),
            collision_area == area_spec(direction, hh, ti),
            use_gt == dir_uses_min(direction),
            cmin_x == cells_lo_x(direction, hh, ti),
            cmax_x == cells_hi_x(direction, hh, ti),
            cmin_y == cells_lo_y(direction, hh, ti),
            cmax_y == cells_hi_y(direction, hh, ti),
            -2_000_000_000 <= cmin_y <= 2_000_000_000,
            -2_000_000_000 <= cmax_y <= 2_000_000_000,
            -2_000_000_000 <= cmin_x <= 2_000_000_000,
            -2_000_000_000 <= cmax_x <= 2_000_000_000,
            cmin_y <= cmax_y,
            cmin_x <= cx <= cmax_x + 1,
            resolve_from(
                direction,
                snap,
                hh,
                ti,
                half_girth,
                cx as int,
                cmin_y as int,
                travel_to as int,
            ) == goal,
        decreases cmax_x + 1 - cx,
    {
        let mut cy: i32 = cmin_y;
        while cy <= cmax_y
            invariant
                obstructions.wf(),
                snapshot_hitboxes_wf(snap),
                snap == obstructions@,
                hh.wf(),
                half_girth.wf(),
                collision_area == area_spec(direction, hh, ti),
                use_gt == dir_uses_min(direction),
                cmin_x == cells_lo_x(direction, hh, ti),
                cmax_x == cells_hi_x(direction, hh, ti),
                cmin_y == cells_lo_y(direction, hh, ti),
                cmax_y == cells_hi_y(direction, hh, ti),
                cmin_x <= cx <= cmax_x,
                -2_000_000_000 <= cmin_y <= 2_000_000_000,
                -2_000_000_000 <= cmax_y <= 2_000_000_000,
                cmin_y <= cy <= cmax_y + 1,
                resolve_from(
                    direction,
                    snap,
                    hh,
                    ti,
                    half_girth,
                    cx as int,
                    cy as int,
                    travel_to as int,
                ) == goal,
            decreases cmax_y + 1 - cy,
        {
            let coordinate = Coordinate::new(cx, cy);
            let ghost acc0: int = travel_to as int;
            let entry = obstructions.get(coordinate);
            match entry {
                Some(cell) => match cell {
                    Some(obs) => {
                        if collision_area.intersects(&obs) {
                            let adjusted_travel_to = adjusted_stop(direction, &obs, half_girth);
                            if use_gt {
                                if travel_to > adjusted_travel_to {
                                    travel_to = adjusted_travel_to;
                                }
                            } else {
                                if travel_to < adjusted_travel_to {
                                    travel_to = adjusted_travel_to;
                                }
                            }
                        }
                    },
                    None => {},
                },
                None => {},
            }
            proof {
                assert(cell_key(cx as int, cy as int) == coordinate);
                assert(travel_to as int == resolve_step(
                    direction,
                    snap,
                    hh,
                    ti,
                    half_girth,
                    acc0,
                    cx as int,
                    cy as int,
                ));
                assert(resolve_from(
                    direction,
                    snap,
                    hh,
                    ti,
                    half_girth,
                    cx as int,
                    cy + 1,
                    travel_to as int,
                ) == goal);
            }
            cy = cy + 1;
        }
        proof {
            assert(resolve_from(
                direction,
                snap,
                hh,
                ti,
                half_girth,
                cx + 1,
                cmin_y as int,
                travel_to as int,
            ) == goal);
        }
        cx = cx + 1;
    }
    proof {
        assert(travel_to as int == goal);
    }
    travel_to
}

/// `(cx, cy)` lies in the cell rectangle the resolver enumerates against the
/// collision area of `d`, `h`, `t`.
pub open spec fn in_cell_range(d: Direction, h: Hitbox, t: int, cx: int, cy: int) -> bool {
    &&& cells_lo_x(d, h, t) <= cx <= cells_hi_x(d, h, t)
    &&& cells_lo_y(d, h, t) <= cy <= cells_hi_y(d, h, t)
}

/// Cell `(cx, cy)` is enumerated by the resolver and holds a recorded
/// obstruction whose hitbox intersects the collision area: it takes part in
/// clamping.
pub open spec fn is_candidate(
    d: Direction,
    snap: Map<Coordinate, Option<Hitbox>>,
    h: Hitbox,
    t: int,
    cx: int,
    cy: int,
) -> bool {
    in_cell_range(d, h, t, cx, cy) && cell_blocks(snap, area_spec(d, h, t), cx, cy)
}

/// What the resolved travel coordinate is, stated without reference to the
/// enumeration order: it is bounded by the tentative coordinate and by the
/// flush stop of every candidate obstruction, and it equals one of them.
/// Together these clauses determine the value uniquely: the nearest blocking
/// obstruction always wins.
pub open spec fn is_resolution(
    d: Direction,
    snap: Map<Coordinate, Option<Hitbox>>,
    h: Hitbox,
    t: int,
    hg: Vec2,
    r: int,
) -> bool {
    &&& dir_uses_min(d) ==> r <= dir_tentative(d, h, t, hg) && forall|cx: int, cy: int|
        #[trigger] is_candidate(d, snap, h, t, cx, cy) ==> r <= dir_adjusted(
            d,
            snap[cell_key(cx, cy)]->0,
            hg,
        )
    &&& !dir_uses_min(d) ==> r >= dir_tentative(d, h, t, hg) && forall|cx: int, cy: int|
        #[trigger] is_candidate(d, snap, h, t, cx, cy) ==> r >= dir_adjusted(
            d,
            snap[cell_key(cx, cy)]->0,
            hg,
        )
    &&& r == dir_tentative(d, h, t, hg) || exists|cx: int, cy: int|
        #[trigger] is_candidate(d, snap, h, t, cx, cy) && r == dir_adjusted(
            d,
            snap[cell_key(cx, cy)]->0,
            hg,
        )
}

/// Candidate cell `(ax, ay)` is still to be visited when the fold stands at
/// `(cx, cy)`: it lies in a later column, or in the same column at or past
/// the current row.
spec fn remaining_candidate(
    d: Direction,
    snap: Map<Coordinate, Option<Hitbox>>,
    h: Hitbox,
    t: int,
    cx: int,
    cy: int,
    ax: int,
    ay: int,
) -> bool {
    is_candidate(d, snap, h, t, ax, ay) && (ax > cx || (ax == cx && ay >= cy))
}

/// Induction core: folding the remaining cells from `(cx, cy)` moves `acc`
/// only toward the clamping direction, past no remaining candidate's flush
/// stop, and only onto a remaining candidate's flush stop.
proof fn lemma_resolve_from_characterized(
    d: Direction,
    snap: Map<Coordinate, Option<Hitbox>>,
    h: Hitbox,
    t: int,
    hg: Vec2,
    cx: int,
    cy: int,
    acc: int,
)
    requires
        cells_lo_x(d, h, t) <= cx,
        cells_lo_y(d, h, t) <= cy,
    ensures
        dir_uses_min(d) ==> resolve_from(d, snap, h, t, hg, cx, cy, acc) <= acc,
        !dir_uses_min(d) ==> resolve_from(d, snap, h, t, hg, cx, cy, acc) >= acc,
        dir_uses_min(d) ==> forall|ax: int, ay: int|
            #[trigger] remaining_candidate(d, snap, h, t, cx, cy, ax, ay) ==> resolve_from(
                d,
                snap,
                h,
                t,
                hg,
                cx,
                cy,
                acc,
            ) <= dir_adjusted(d, snap[cell_key(ax, ay)]->0, hg),
        !dir_uses_min(d) ==> forall|ax: int, ay: int|
            #[trigger] remaining_candidate(d, snap, h, t, cx, cy, ax, ay) ==> resolve_from(
                d,
                snap,
                h,
                t,
                hg,
                cx,
                cy,
                acc,
            ) >= dir_adjusted(d, snap[cell_key(ax, ay)]->0, hg),
        resolve_from(d, snap, h, t, hg, cx, cy, acc) == acc || exists|ax: int, ay: int|
            #[trigger] remaining_candidate(d, snap, h, t, cx, cy, ax, ay) && resolve_from(
                d,
                snap,
                h,
                t,
                hg,
                cx,
                cy,
                acc,
            ) == dir_adjusted(d, snap[cell_key(ax, ay)]->0, hg),
    decreases cells_hi_x(d, h, t) + 1 - cx, cells_hi_y(d, h, t) + 1 - cy,
{
    let r = resolve_from(d, snap, h, t, hg, cx, cy, acc);
    if cx > cells_hi_x(d, h, t) {
        assert(r == acc);
        assert(forall|ax: int, ay: int|
            !remaining_candidate(d, snap, h, t, cx, cy, ax, ay));
    } else if cy > cells_hi_y(d, h, t) {
        lemma_resolve_from_characterized(d, snap, h, t, hg, cx + 1, cells_lo_y(d, h, t), acc);
        let r2 = resolve_from(d, snap, h, t, hg, cx + 1, cells_lo_y(d, h, t), acc);
        assert(r == r2);
        assert forall|ax: int, ay: int|
            remaining_candidate(d, snap, h, t, cx, cy, ax, ay) implies remaining_candidate(
            d,
            snap,
            h,
            t,
            cx + 1,
            cells_lo_y(d, h, t),
            ax,
            ay,
        ) by {
            assert(ay <= cells_hi_y(d, h, t) < cy);
        }
        if r2 != acc {
            let (ax, ay) = choose|ax: int, ay: int|
                #[trigger] remaining_candidate(d, snap, h, t, cx + 1, cells_lo_y(d, h, t), ax, ay)
                    && r2 == dir_adjusted(d, snap[cell_key(ax, ay)]->0, hg);
            assert(remaining_candidate(d, snap, h, t, cx, cy, ax, ay));
        }
    } else {
        let acc2 = resolve_step(d, snap, h, t, hg, acc, cx, cy);
        lemma_resolve_from_characterized(d, snap, h, t, hg, cx, cy + 1, acc2);
        let r2 = resolve_from(d, snap, h, t, hg, cx, cy + 1, acc2);
        assert(r == r2);
        if dir_uses_min(d) {
            assert(acc2 <= acc);
            assert forall|ax: int, ay: int|
                remaining_candidate(d, snap, h, t, cx, cy, ax, ay) implies r <= dir_adjusted(
                d,
                snap[cell_key(ax, ay)]->0,
                hg,
            ) by {
                if ax == cx && ay == cy {
                    assert(acc2 <= dir_adjusted(d, snap[cell_key(cx, cy)]->0, hg));
                } else {
                    assert(remaining_candidate(d, snap, h, t, cx, cy + 1, ax, ay));
                }
            }
        } else {
            assert(acc2 >= acc);
            assert forall|ax: int, ay: int|
                remaining_candidate(d, snap, h, t, cx, cy, ax, ay) implies r >= dir_adjusted(
                d,
                snap[cell_key(ax, ay)]->0,
                hg,
            ) by {
                if ax == cx && ay == cy {
                    assert(acc2 >= dir_adjusted(d, snap[cell_key(cx, cy)]->0, hg));
                } else {
                    assert(remaining_candidate(d, snap, h, t, cx, cy + 1, ax, ay));
                }
            }
        }
        if r2 == acc2 {
            if acc2 != acc {
                assert(cell_blocks(snap, area_spec(d, h, t), cx, cy));
                assert(remaining_candidate(d, snap, h, t, cx, cy, cx, cy));
                assert(r == dir_adjusted(d, snap[cell_key(cx, cy)]->0, hg));
            }
        } else {
            let (ax, ay) = choose|ax: int, ay: int|
                #[trigger] remaining_candidate(d, snap, h, t, cx, cy + 1, ax, ay) && r2
                    == dir_adjusted(d, snap[cell_key(ax, ay)]->0, hg);
            assert(remaining_candidate(d, snap, h, t, cx, cy, ax, ay));
        }
    }
}

/// The resolver's result satisfies the order-independent characterization:
/// it is the tentative coordinate clamped exactly to the nearest candidate
/// obstruction's flush stop.
pub proof fn lemma_resolve_characterized(
    d: Direction,
    snap: Map<Coordinate, Option<Hitbox>>,
    h: Hitbox,
    t: int,
    hg: Vec2,
)
    ensures
        is_resolution(d, snap, h, t, hg, resolve_spec(d, snap, h, t, hg)),
{
    lemma_resolve_from_characterized(
        d,
        snap,
        h,
        t,
        hg,
        cells_lo_x(d, h, t),
        cells_lo_y(d, h, t),
        dir_tentative(d, h, t, hg),
    );
    let r = resolve_spec(d, snap, h, t, hg);
    assert forall|ax: int, ay: int| is_candidate(d, snap, h, t, ax, ay) implies remaining_candidate(
        d,
        snap,
        h,
        t,
        cells_lo_x(d, h, t),
        cells_lo_y(d, h, t),
        ax,
        ay,
    ) by {}
    if r != dir_tentative(d, h, t, hg) {
        let (ax, ay) = choose|ax: int, ay: int|
            #[trigger] remaining_candidate(
                d,
                snap,
                h,
                t,
                cells_lo_x(d, h, t),
                cells_lo_y(d, h, t),
                ax,
                ay,
            ) && r == dir_adjusted(d, snap[cell_key(ax, ay)]->0, hg);
        assert(is_candidate(d, snap, h, t, ax, ay) && r == dir_adjusted(
            d,
            snap[cell_key(ax, ay)]->0,
            hg,
        ));
    }
}

/// Only one value satisfies the resolution characterization: the resolver's
/// result does not depend on the order obstructions are enumerated in.
pub proof fn lemma_resolution_unique(
    d: Direction,
    snap: Map<Coordinate, Option<Hitbox>>,
    h: Hitbox,
    t: int,
    hg: Vec2,
    r1: int,
    r2: int,
)
    requires
        is_resolution(d, snap, h, t, hg, r1),
        is_resolution(d, snap, h, t, hg, r2),
    ensures
        r1 == r2,
{
    if dir_uses_min(d) {
        if r2 == dir_tentative(d, h, t, hg) {
            assert(r1 <= r2);
        } else {
            let (ax, ay) = choose|ax: int, ay: int|
                #[trigger] is_candidate(d, snap, h, t, ax, ay) && r2 == dir_adjusted(
                    d,
                    snap[cell_key(ax, ay)]->0,
                    hg,
                );
            assert(r1 <= r2);
        }
        if r1 == dir_tentative(d, h, t, hg) {
            assert(r2 <= r1);
        } else {
            let (ax, ay) = choose|ax: int, ay: int|
                #[trigger] is_candidate(d, snap, h, t, ax, ay) && r1 == dir_adjusted(
                    d,
                    snap[cell_key(ax, ay)]->0,
                    hg,
                );
            assert(r2 <= r1);
        }
    } else {
        if r2 == dir_tentative(d, h, t, hg) {
            assert(r1 >= r2);
        } else {
            let (ax, ay) = choose|ax: int, ay: int|
                #[trigger] is_candidate(d, snap, h, t, ax, ay) && r2 == dir_adjusted(
                    d,
                    snap[cell_key(ax, ay)]->0,
                    hg,
                );
            assert(r1 >= r2);
        }
        if r1 == dir_tentative(d, h, t, hg) {
            assert(r2 >= r1);
        } else {
            let (ax, ay) = choose|ax: int, ay: int|
                #[trigger] is_candidate(d, snap, h, t, ax, ay) && r1 == dir_adjusted(
                    d,
                    snap[cell_key(ax, ay)]->0,
                    hg,
                );
            assert(r2 >= r1);
        }
    }
}

/// Containment monotonicity: when no enumerated cell holds an obstruction
/// intersecting the collision area, the resolver grants the full requested
/// translation and returns the tentative coordinate unchanged.
pub proof fn lemma_unobstructed_full_translation(
    d: Direction,
    snap: Map<Coordinate, Option<Hitbox>>,
    h: Hitbox,
    t: int,
    hg: Vec2,
)
    requires
        forall|cx: int, cy: int|
            in_cell_range(d, h, t, cx, cy) ==> !#[trigger] cell_blocks(
                snap,
                area_spec(d, h, t),
                cx,
                cy,
            ),
    ensures
        resolve_spec(d, snap, h, t, hg) == dir_tentative(d, h, t, hg),
{
    lemma_resolve_characterized(d, snap, h, t, hg);
    let r = resolve_spec(d, snap, h, t, hg);
    if r != dir_tentative(d, h, t, hg) {
        let (ax, ay) = choose|ax: int, ay: int|
            #[trigger] is_candidate(d, snap, h, t, ax, ay) && r == dir_adjusted(
                d,
                snap[cell_key(ax, ay)]->0,
                hg,
            );
        assert(!cell_blocks(snap, area_spec(d, h, t), ax, ay));
        assert(false);
    }
}

/// Leading edge of a footprint centred at `center` on the axis of `d`: the
/// edge facing the direction of travel.
pub open spec fn dir_leading_edge(d: Direction, center: int, hg: Vec2) -> int {
    match d {
        Direction::North => center - hg.y,
        Direction::South => center + hg.y,
        Direction::East => center + hg.x,
        Direction::West => center - hg.x,
    }
}

/// The face of obstruction `obs` nearest to an entity approaching in
/// direction `d`.
pub open spec fn dir_near_face(d: Direction, obs: Hitbox) -> int {
    match d {
        Direction::North => obs.max.y as int,
        Direction::South => obs.min.y as int,
        Direction::East => obs.min.x as int,
        Direction::West => obs.max.x as int,
    }
}

/// Flush-stop invariant: the resolved footprint's leading edge never passes
/// the near face of any candidate obstruction, and when the resolver clamps
/// at all, that leading edge exactly equals some candidate obstruction's
/// near face: the footprint touches the obstruction but does not overlap it.
pub proof fn lemma_flush_stop(
    d: Direction,
    snap: Map<Coordinate, Option<Hitbox>>,
    h: Hitbox,
    t: int,
    hg: Vec2,
)
    ensures
        dir_uses_min(d) ==> forall|cx: int, cy: int|
            #[trigger] is_candidate(d, snap, h, t, cx, cy) ==> dir_leading_edge(
                d,
                resolve_spec(d, snap, h, t, hg),
                hg,
            ) <= dir_near_face(d, snap[cell_key(cx, cy)]->0),
        !dir_uses_min(d) ==> forall|cx: int, cy: int|
            #[trigger] is_candidate(d, snap, h, t, cx, cy) ==> dir_leading_edge(
                d,
                resolve_spec(d, snap, h, t, hg),
                hg,
            ) >= dir_near_face(d, snap[cell_key(cx, cy)]->0),
        resolve_spec(d, snap, h, t, hg) != dir_tentative(d, h, t, hg) ==> exists|cx: int, cy: int|
            #[trigger] is_candidate(d, snap, h, t, cx, cy) && dir_leading_edge(
                d,
                resolve_spec(d, snap, h, t, hg),
                hg,
            ) == dir_near_face(d, snap[cell_key(cx, cy)]->0),
{
    lemma_resolve_characterized(d, snap, h, t, hg);
    let r = resolve_spec(d, snap, h, t, hg);
    if r != dir_tentative(d, h, t, hg) {
        let (ax, ay) = choose|ax: int, ay: int|
            #[trigger] is_candidate(d, snap, h, t, ax, ay) && r == dir_adjusted(
                d,
                snap[cell_key(ax, ay)]->0,
                hg,
            );
        assert(dir_leading_edge(d, r, hg) == dir_near_face(d, snap[cell_key(ax, ay)]->0));
    }
}

/// Magnitude small enough for the mirror-symmetry statement: mirrored
/// positions stay within range and mirrored cell indices within `i32`.
pub open spec fn mirror_ok(x: int) -> bool {
    -250_000_000_000 <= x <= 250_000_000_000
}

/// Reflection of subunit coordinate `x` about the vertical line `x = m`.
pub open spec fn mirror_scalar(m: int, x: int) -> int {
    2 * m - x
}

/// Reflection of cell column `cx` about the line `x = m` (for a line on a
/// half-tile boundary, cells map onto cells).
pub open spec fn mirror_cell(m: int, cx: int) -> int {
    (2 * m) / 1000 - cx - 1
}

/// Reflection of a hitbox about the vertical line `x = m`.
pub open spec fn mirror_x_hitbox(m: int, b: Hitbox) -> Hitbox {
    Hitbox {
        min: Vec2 { x: (2 * m - b.max.x) as i64, y: b.min.y },
        max: Vec2 { x: (2 * m - b.min.x) as i64, y: b.max.y },
    }
}

/// Reflection of a snapshot about the vertical line `x = m`: the entry at a
/// cell is the mirrored entry of the mirrored cell.
pub open spec fn mirror_x_snapshot(m: int, snap: Map<Coordinate, Option<Hitbox>>) -> Map<
    Coordinate,
    Option<Hitbox>,
> {
    Map::new(
        |c: Coordinate| snap.contains_key(cell_key(mirror_cell(m, c.x as int), c.y as int)),
        |c: Coordinate|
            match snap[cell_key(mirror_cell(m, c.x as int), c.y as int)] {
                Some(b) => Some(mirror_x_hitbox(m, b)),
                None => None,
            },
    )
}

/// Reflecting about a half-tile-aligned line sends the floor cell of a
/// coordinate not on a cell boundary to the mirrored cell.
proof fn lemma_mirror_floor(mm: int, a: int)
    requires
        mm % 1000 == 0,
        a % 1000 != 0,
    ensures
        floor_units(mm - a) == mm / 1000 - floor_units(a) - 1,
{
    let mq = mm / 1000;
    let q = a / 1000;
    let r = a % 1000;
    lemma_fundamental_div_mod(mm, 1000);
    lemma_fundamental_div_mod(a, 1000);
    vstd::arithmetic::div_mod::lemma_mod_bound(a, 1000);
    assert(mm - a == (mq - q - 1) * 1000 + (1000 - r)) by (nonlinear_arith)
        requires
            mm == 1000 * mq,
            a == 1000 * q + r,
    ;
    lemma_fundamental_div_mod_converse(mm - a, 1000, mq - q - 1, 1000 - r);
}

/// Symmetry of the resolver: moving East into obstructions and moving West
/// into the mirror image of those obstructions stop at mirror-symmetric
/// coordinates, whenever the collision area's edges do not fall exactly on
/// cell boundaries.
pub proof fn lemma_eastwest_mirror_symmetry(
    snap: Map<Coordinate, Option<Hitbox>>,
    h: Hitbox,
    t: int,
    hg: Vec2,
    m: int,
)
    requires
        mirror_ok(h.min.x as int),
        mirror_ok(h.max.x as int),
        mirror_ok(h.min.y as int),
        mirror_ok(h.max.y as int),
        mirror_ok(t),
        mirror_ok(m),
        h.min.x <= h.max.x,
        h.min.y <= h.max.y,
        (2 * m) % 1000 == 0,
        h.max.x % 1000 != 0,
        (h.max.x + t) % 1000 != 0,
        snapshot_hitboxes_wf(snap),
    ensures
        resolve_spec(Direction::West, mirror_x_snapshot(m, snap), mirror_x_hitbox(m, h), -t, hg)
            == mirror_scalar(m, resolve_spec(Direction::East, snap, h, t, hg)),
{
    let msnap = mirror_x_snapshot(m, snap);
    let mh = mirror_x_hitbox(m, h);
    let east = Direction::East;
    let west = Direction::West;
    let re = resolve_spec(east, snap, h, t, hg);
    let s = 2 * m - re;
    let mq = (2 * m) / 1000;
    lemma_resolve_characterized(east, snap, h, t, hg);

    let ae = area_spec(east, h, t);
    let aw = area_spec(west, mh, -t);
    assert(aw == mirror_x_hitbox(m, ae));

    // The enumerated cell rectangles mirror each other.
    lemma_mirror_floor(2 * m, ae.max.x as int);
    lemma_mirror_floor(2 * m, ae.min.x as int);
    assert(ae.min.x as int % 1000 != 0 && ae.max.x as int % 1000 != 0) by {
        assert(ae.min.x == min2(h.max.x as int, h.max.x + t));
        assert(ae.max.x == max2(h.max.x as int, h.max.x + t));
    }
    assert(cells_lo_x(west, mh, -t) == mq - cells_hi_x(east, h, t) - 1);
    assert(cells_hi_x(west, mh, -t) == mq - cells_lo_x(east, h, t) - 1);
    assert(cells_lo_y(west, mh, -t) == cells_lo_y(east, h, t));
    assert(cells_hi_y(west, mh, -t) == cells_hi_y(east, h, t));

    // Cell indices on both sides fit in a coordinate.
    lemma_floor_units_bounds(ae.min.x as int);
    lemma_floor_units_bounds(ae.max.x as int);
    lemma_floor_units_bounds(ae.min.y as int);
    lemma_floor_units_bounds(ae.max.y as int);

    // Candidates correspond under mirroring, with mirrored flush stops.
    assert forall|ax: int, ay: int|
        is_candidate(west, msnap, mh, -t, ax, ay) implies #[trigger] is_candidate(
        east,
        snap,
        h,
        t,
        mirror_cell(m, ax),
        ay,
    ) && dir_adjusted(west, msnap[cell_key(ax, ay)]->0, hg) == 2 * m - dir_adjusted(
        east,
        snap[cell_key(mirror_cell(m, ax), ay)]->0,
        hg,
    ) by {
        let bx = mirror_cell(m, ax);
        assert(cells_lo_x(east, h, t) <= bx <= cells_hi_x(east, h, t));
        let wk = cell_key(ax, ay);
        let ek = cell_key(bx, ay);
        assert(wk.x as int == ax && wk.y as int == ay);
        assert(mirror_cell(m, wk.x as int) == bx);
        assert(snap.contains_key(ek));
        let obs = snap[ek]->0;
        assert(msnap[wk] == Some(mirror_x_hitbox(m, obs)));
        assert(obs.wf());
        assert(aw.intersects_spec(mirror_x_hitbox(m, obs)) == ae.intersects_spec(obs));
    }
    assert forall|bx: int, ay: int|
        is_candidate(east, snap, h, t, bx, ay) implies #[trigger] is_candidate(
        west,
        msnap,
        mh,
        -t,
        mirror_cell(m, bx),
        ay,
    ) by {
        let ax = mirror_cell(m, bx);
        assert(cells_lo_x(west, mh, -t) <= ax <= cells_hi_x(west, mh, -t));
        let wk = cell_key(ax, ay);
        let ek = cell_key(bx, ay);
        assert(wk.x as int == ax && wk.y as int == ay);
        assert(mirror_cell(m, wk.x as int) == bx);
        assert(msnap.contains_key(wk));
        let obs = snap[ek]->0;
        assert(msnap[wk] == Some(mirror_x_hitbox(m, obs)));
        assert(obs.wf());
        assert(aw.intersects_spec(mirror_x_hitbox(m, obs)) == ae.intersects_spec(obs));
    }

    // The mirror of the East resolution satisfies the West characterization.
    assert(dir_tentative(west, mh, -t, hg) == 2 * m - dir_tentative(east, h, t, hg));
    assert(s >= dir_tentative(west, mh, -t, hg));
    assert forall|ax: int, ay: int|
        #[trigger] is_candidate(west, msnap, mh, -t, ax, ay) implies s >= dir_adjusted(
        west,
        msnap[cell_key(ax, ay)]->0,
        hg,
    ) by {
        assert(is_candidate(east, snap, h, t, mirror_cell(m, ax), ay));
        assert(re <= dir_adjusted(east, snap[cell_key(mirror_cell(m, ax), ay)]->0, hg));
    }
    if re == dir_tentative(east, h, t, hg) {
        assert(s == dir_tentative(west, mh, -t, hg));
    } else {
        let (bx, by) = choose|bx: int, by: int|
            #[trigger] is_candidate(east, snap, h, t, bx, by) && re == dir_adjusted(
                east,
                snap[cell_key(bx, by)]->0,
                hg,
            );
        let ax = mirror_cell(m, bx);
        assert(is_candidate(west, msnap, mh, -t, ax, by));
        assert(mirror_cell(m, ax) == bx);
        assert(dir_adjusted(west, msnap[cell_key(ax, by)]->0, hg) == 2 * m - dir_adjusted(
            east,
            snap[cell_key(bx, by)]->0,
            hg,
        ));
        assert(s == dir_adjusted(west, msnap[cell_key(ax, by)]->0, hg));
    }
    assert(is_resolution(west, msnap, mh, -t, hg, s));

    lemma_resolve_characterized(west, msnap, mh, -t, hg);
    lemma_resolution_unique(
        west,
        msnap,
        mh,
        -t,
        hg,
        resolve_spec(west, msnap, mh, -t, hg),
        s,
    );
}

/// Half of a (nonnegative) girth on each axis.
pub open spec fn half_girth_spec(g: Vec2) -> Vec2 {
    Vec2 { x: (g.x as int / 2) as i64, y: (g.y as int / 2) as i64 }
}

/// Desired translation along one axis for a tick: speed times intent
/// component, scaled, times the tick duration, scaled.
pub open spec fn translation_spec(max_speed: int, intent: int, dt: int) -> int {
    (((max_speed * intent) / 1000) * dt) / 1000
}

/// The footprint hitbox of an entity at array-space position `pa` with half
/// girth `hg`.
pub open spec fn footprint_spec(pa: Vec2, hg: Vec2) -> Hitbox {
    Hitbox {
        min: Vec2 { x: (pa.x - hg.x) as i64, y: (pa.y - hg.y) as i64 },
        max: Vec2 { x: (pa.x + hg.x) as i64, y: (pa.y + hg.y) as i64 },
    }
}

/// Resolved centre coordinate along one axis: a positive translation travels
/// in direction `positive`, a negative one in `negative`, and a zero
/// translation leaves the centre at `default`.
pub open spec fn axis_resolution_spec(
    positive: Direction,
    negative: Direction,
    snap: Map<Coordinate, Option<Hitbox>>,
    h: Hitbox,
    t: int,
    hg: Vec2,
    default: int,
) -> int {
    if t > 0 {
        resolve_spec(positive, snap, h, t, hg)
    } else if t < 0 {
        resolve_spec(negative, snap, h, t, hg)
    } else {
        default
    }
}

/// The render-space position an entity ends the tick at: zero intent leaves
/// the position untouched; otherwise the desired translation is resolved
/// axis by axis, x first, against a snapshot of nearby obstructions, with
/// the footprint recomputed and the snapshot re-taken if its bounding cell
/// range changed after the x axis was committed.
pub open spec fn tick_spec(m: WorldMap, c: MovementController, position: Vec2, dt: int) -> Vec2 {
    if c.intent.x == 0 && c.intent.y == 0 {
        position
    } else {
        let hg = half_girth_spec(c.girth->0);
        let tx = translation_spec(c.max_speed as int, c.intent.x as int, dt);
        let ty = translation_spec(c.max_speed as int, c.intent.y as int, dt);
        let pa = Vec2 {
            x: (position.x + OFFSET_UNITS) as i64,
            y: (OFFSET_UNITS - position.y) as i64,
        };
        let h0 = footprint_spec(pa, hg);
        let s0 = surroundings_spec(h0);
        let snap0 = gather_spec(m, s0.0, s0.1);
        let rx = axis_resolution_spec(
            Direction::East,
            Direction::West,
            snap0,
            h0,
            tx,
            hg,
            pa.x as int,
        );
        let pa1 = Vec2 { x: rx as i64, y: pa.y };
        let h1 = footprint_spec(pa1, hg);
        let s1 = surroundings_spec(h1);
        let snap1 = if s1 != s0 {
            gather_spec(m, s1.0, s1.1)
        } else {
            snap0
        };
        let ry = axis_resolution_spec(
            Direction::South,
            Direction::North,
            snap1,
            h1,
            ty,
            hg,
            pa.y as int,
        );
        Vec2 { x: (rx - OFFSET_UNITS) as i64, y: (OFFSET_UNITS - ry) as i64 }
    }
}

/// Resolve one axis of a tick: clamp a positive translation in `positive`, a
/// negative one in `negative`, and leave a zero translation at `default`.
/// The ghost bounds `climit` and `bound` tie the snapshot's cell rectangle
/// to the range the result is guaranteed to stay in.
fn resolve_axis(
    obstructions: &ObstructionSnapshot,
    positive: Direction,
    negative: Direction,
    t: i64,
    hitbox: &Hitbox,
    half_girth: Vec2,
    default: i64,
    world_map: &WorldMap,
    climit: Ghost<int>,
    bound: Ghost<int>,
) -> (r: i64)
    requires
        obstructions.wf(),
        obstructions@ == gather_spec(*world_map, obstructions.lo, obstructions.hi),
        snapshot_hitboxes_wf(obstructions@),
        hitbox.wf(),
        half_girth.wf(),
        -10_000_000 <= half_girth.x <= 10_000_000,
        -10_000_000 <= half_girth.y <= 10_000_000,
        unit_ok(hitbox.min.x + t),
        unit_ok(hitbox.max.x + t),
        unit_ok(hitbox.min.y + t),
        unit_ok(hitbox.max.y + t),
        0 <= climit@,
        -climit@ <= obstructions.lo.x as int,
        obstructions.hi.x as int <= climit@,
        -climit@ <= obstructions.lo.y as int,
        obstructions.hi.y as int <= climit@,
        1000 * climit@ + 1000 + 10_000_000 <= bound@,
        -bound@ <= dir_tentative(positive, *hitbox, t as int, half_girth) <= bound@,
        -bound@ <= dir_tentative(negative, *hitbox, t as int, half_girth) <= bound@,
        -bound@ <= default <= bound@,
    ensures
        r == axis_resolution_spec(
            positive,
            negative,
            obstructions@,
            *hitbox,
            t as int,
            half_girth,
            default as int,
        ),
        -bound@ <= r <= bound@,
{
    if t > 0 {
        let travel_to = apply_movement_in_one_direction(
            obstructions,
            (positive, t),
            hitbox,
            half_girth,
        );
        proof {
            lemma_resolve_bounded(
                positive,
                *world_map,
                obstructions.lo,
                obstructions.hi,
                *hitbox,
                t as int,
                half_girth,
                climit@,
                bound@,
            );
        }
        travel_to
    } else if t < 0 {
        let travel_to = apply_movement_in_one_direction(
            obstructions,
            (negative, t),
            hitbox,
            half_girth,
        );
        proof {
            lemma_resolve_bounded(
                negative,
                *world_map,
                obstructions.lo,
                obstructions.hi,
                *hitbox,
                t as int,
                half_girth,
                climit@,
                bound@,
            );
        }
        travel_to
    } else {
        default
    }
}

/// The surrounding cell rectangle of a footprint no wider or taller than
/// `10_000_000` subunits spans at most `10_004` cells on each axis, and its
/// cell indices are bounded by `b` when the footprint's corners stay within
/// `1000 * (b - 2)` subunits.
proof fn lemma_surroundings_extent(h: Hitbox, b: int)
    requires
        h.min.x <= h.max.x,
        h.min.y <= h.max.y,
        h.max.x - h.min.x <= 10_000_000,
        h.max.y - h.min.y <= 10_000_000,
        b >= 2,
        -1000 * (b - 2) <= h.min.x,
        h.max.x <= 1000 * (b - 2),
        -1000 * (b - 2) <= h.min.y,
        h.max.y <= 1000 * (b - 2),
    ensures
        ceil_units(h.max.x as int) - (floor_units(h.min.x as int) - 1) + 1 <= 10_004,
        ceil_units(h.max.y as int) - (floor_units(h.min.y as int) - 1) + 1 <= 10_004,
        -b <= floor_units(h.min.x as int) - 1,
        ceil_units(h.max.x as int) <= b,
        -b <= floor_units(h.min.y as int) - 1,
        ceil_units(h.max.y as int) <= b,
{
    lemma_floor_units_bounds(h.min.x as int);
    lemma_floor_units_bounds(h.min.y as int);
    crate::units::lemma_ceil_units_bounds(h.max.x as int);
    crate::units::lemma_ceil_units_bounds(h.max.y as int);
}

/// The resolver's result over a gathered snapshot is bounded: it is either
/// the tentative coordinate or flush against some tile square of the
/// gathered cell rectangle, whose cell indices are bounded by `climit`.
proof fn lemma_resolve_bounded(
    d: Direction,
    m: WorldMap,
    lo: Coordinate,
    hi: Coordinate,
    h: Hitbox,
    t: int,
    hg: Vec2,
    climit: int,
    bound: int,
)
    requires
        0 <= climit,
        -climit <= lo.x as int,
        hi.x as int <= climit,
        -climit <= lo.y as int,
        hi.y as int <= climit,
        -10_000_000 <= hg.x <= 10_000_000,
        -10_000_000 <= hg.y <= 10_000_000,
        -bound <= dir_tentative(d, h, t, hg) <= bound,
        1000 * climit + 1000 + 10_000_000 <= bound,
    ensures
        -bound <= resolve_spec(d, gather_spec(m, lo, hi), h, t, hg) <= bound,
{
    let snap = gather_spec(m, lo, hi);
    lemma_resolve_characterized(d, snap, h, t, hg);
    let r = resolve_spec(d, snap, h, t, hg);
    if r != dir_tentative(d, h, t, hg) {
        let (ax, ay) = choose|ax: int, ay: int|
            #[trigger] is_candidate(d, snap, h, t, ax, ay) && r == dir_adjusted(
                d,
                snap[cell_key(ax, ay)]->0,
                hg,
            );
        let k = cell_key(ax, ay);
        assert(snap.contains_key(k));
        assert(snap[k] == obstruction_entry(m, k));
        let obs = snap[k]->0;
        assert(obs == tile_hitbox(k.x as int, k.y as int));
        assert(lo.x <= k.x <= hi.x && lo.y <= k.y <= hi.y);
        assert(-1000 * climit <= 1000 * (k.x as int) <= 1000 * climit);
        assert(-1000 * climit <= 1000 * (k.y as int) <= 1000 * climit);
    }
}

/// One simulation tick for one entity, in render-space subunits: zero intent
/// short-circuits everything; otherwise the footprint is built from the
/// position and girth, nearby obstructions are gathered once, the x axis is
/// resolved and committed, the snapshot is re-taken if the footprint's
/// bounding cell range changed, and the y axis is resolved. Requires a girth
/// whenever the intent is nonzero: resolving a girthless entity is not
/// supported.
pub fn apply_movement(
    controller: &MovementController,
    position: Vec2,
    delta_time: i64,
    world_map: &WorldMap,
) -> (r: Vec2)
    requires
        world_map.wf(),
        -100_000_000_000 <= position.x <= 100_000_000_000,
        -100_000_000_000 <= position.y <= 100_000_000_000,
        -1000 <= controller.intent.x <= 1000,
        -1000 <= controller.intent.y <= 1000,
        0 <= controller.max_speed <= 100_000_000,
        0 <= delta_time <= 1_000_000,
        controller.intent.x != 0 || controller.intent.y != 0 ==> controller.girth is Some,
        controller.girth is Some ==> 0 <= controller.girth->0.x <= 10_000_000 && 0
            <= controller.girth->0.y <= 10_000_000,
    ensures
        r == tick_spec(*world_map, *controller, position, delta_time as int),
        controller.intent.x == 0 && controller.intent.y == 0 ==> r == position,
{
    if controller.intent.x == 0 && controller.intent.y == 0 {
        return position;
    }
    let girth = controller.girth.unwrap();
    let half_girth = Vec2 { x: girth.x / 2, y: girth.y / 2 };
    proof {
        assert(half_girth == half_girth_spec(girth));
        assert(-100_000_000_000 <= controller.max_speed * controller.intent.x
            <= 100_000_000_000) by (nonlinear_arith)
            requires
                0 <= controller.max_speed <= 100_000_000,
                -1000 <= controller.intent.x <= 1000,
        ;
        assert(-100_000_000_000 <= controller.max_speed * controller.intent.y
            <= 100_000_000_000) by (nonlinear_arith)
            requires
                0 <= controller.max_speed <= 100_000_000,
                -1000 <= controller.intent.y <= 1000,
        ;
    }
    let vx = mul_units(controller.max_speed, controller.intent.x);
    let vy = mul_units(controller.max_speed, controller.intent.y);
    proof {
        lemma_mul_div_bound(controller.max_speed as int, controller.intent.x as int, 100_000_000);
        lemma_mul_div_bound(controller.max_speed as int, controller.intent.y as int, 100_000_000);
        assert(-100_000_000_000_000 <= vx * delta_time <= 100_000_000_000_000)
            by (nonlinear_arith)
            requires
                -100_000_000 <= vx <= 100_000_000,
                0 <= delta_time <= 1_000_000,
        ;
        assert(-100_000_000_000_000 <= vy * delta_time <= 100_000_000_000_000)
            by (nonlinear_arith)
            requires
                -100_000_000 <= vy <= 100_000_000,
                0 <= delta_time <= 1_000_000,
        ;
    }
    let tx = mul_units(vx, delta_time);
    let ty = mul_units(vy, delta_time);
    proof {
        lemma_mul_div_bound(vx as int, delta_time as int, 100_000_000_000);
        lemma_mul_div_bound(vy as int, delta_time as int, 100_000_000_000);
        assert(tx == translation_spec(
            controller.max_speed as int,
            controller.intent.x as int,
            delta_time as int,
        ));
        assert(ty == translation_spec(
            controller.max_speed as int,
            controller.intent.y as int,
            delta_time as int,
        ));
    }
    let pa = world_array_position_from_render_position(position.x, position.y);
    let h0 = Hitbox::from_corners(
        Vec2 { x: pa.x - half_girth.x, y: pa.y - half_girth.y },
        Vec2 { x: pa.x + half_girth.x, y: pa.y + half_girth.y },
    );
    proof {
        assert(h0 == footprint_spec(pa, half_girth));
    }
    let surroundings = hitbox_surroundings(&h0);
    proof {
        lemma_surroundings_extent(h0, 200_000_000);
        assert((surroundings.1.x - surroundings.0.x + 1) * (surroundings.1.y - surroundings.0.y
            + 1) <= usize::MAX) by (nonlinear_arith)
            requires
                0 < surroundings.1.x - surroundings.0.x + 1 <= 10_004,
                0 < surroundings.1.y - surroundings.0.y + 1 <= 10_004,
                usize::MAX >= 0xffff_ffff,
        ;
    }
    let mut obstructions = gather_map_obstructions(&surroundings, world_map);
    let ghost snap0 = obstructions@;

    // Try to move by x, using the original footprint.
    let x_translation = resolve_axis(
        &obstructions,
        Direction::East,
        Direction::West,
        tx,
        &h0,
        half_girth,
        pa.x,
        world_map,
        Ghost(200_000_000),
        Ghost(300_000_000_000),
    );
    let new_position_x = render_x_from_world_array_x(x_translation);

    // Reset the footprint in case movement did not proceed fully in the x
    // direction, and re-gather obstructions if its bounding cell range moved.
    let pa1 = world_array_position_from_render_position(new_position_x, position.y);
    let h1 = Hitbox::from_corners(
        Vec2 { x: pa1.x - half_girth.x, y: pa1.y - half_girth.y },
        Vec2 { x: pa1.x + half_girth.x, y: pa1.y + half_girth.y },
    );
    proof {
        assert(h1 == footprint_spec(pa1, half_girth));
    }
    let updated_surroundings = hitbox_surroundings(&h1);
    let changed = updated_surroundings.0.x != surroundings.0.x || updated_surroundings.0.y
        != surroundings.0.y || updated_surroundings.1.x != surroundings.1.x
        || updated_surroundings.1.y != surroundings.1.y;
    if changed {
        proof {
            lemma_surroundings_extent(h1, 400_000_000);
            assert((updated_surroundings.1.x - updated_surroundings.0.x + 1)
                * (updated_surroundings.1.y - updated_surroundings.0.y + 1) <= usize::MAX)
                by (nonlinear_arith)
                requires
                    0 < updated_surroundings.1.x - updated_surroundings.0.x + 1 <= 10_004,
                    0 < updated_surroundings.1.y - updated_surroundings.0.y + 1 <= 10_004,
                    usize::MAX >= 0xffff_ffff,
            ;
        }
        obstructions = gather_map_obstructions(&updated_surroundings, world_map);
    }

    // Try to move by y, using the committed footprint.
    let y_translation = resolve_axis(
        &obstructions,
        Direction::South,
        Direction::North,
        ty,
        &h1,
        half_girth,
        pa.y,
        world_map,
        Ghost(400_000_000),
        Ghost(500_000_000_000),
    );
    let new_position_y = render_y_from_world_array_y(y_translation);
    let r = Vec2 { x: new_position_x, y: new_position_y };
    proof {
        lemma_tick_correspondence(
            *world_map,
            *controller,
            position,
            delta_time as int,
            half_girth,
            pa,
            h0,
            surroundings,
            snap0,
            x_translation,
            pa1,
            h1,
            updated_surroundings,
            obstructions@,
            y_translation,
            r,
        );
    }
    r
}

/// Stitch the tick's intermediate values back into `tick_spec`: a run of the
/// tick whose stages each match the corresponding stage of the specification
/// produces exactly the specified position.
proof fn lemma_tick_correspondence(
    m: WorldMap,
    c: MovementController,
    position: Vec2,
    dt: int,
    half_girth: Vec2,
    pa: Vec2,
    h0: Hitbox,
    s0: (Coordinate, Coordinate),
    snap0: Map<Coordinate, Option<Hitbox>>,
    x_translation: i64,
    pa1: Vec2,
    h1: Hitbox,
    s1: (Coordinate, Coordinate),
    snap1: Map<Coordinate, Option<Hitbox>>,
    y_translation: i64,
    r: Vec2,
)
    requires
        !(c.intent.x == 0 && c.intent.y == 0),
        half_girth == half_girth_spec(c.girth->0),
        pa == (Vec2 {
            x: (position.x + OFFSET_UNITS) as i64,
            y: (OFFSET_UNITS - position.y) as i64,
        }),
        h0 == footprint_spec(pa, half_girth),
        s0 == surroundings_spec(h0),
        snap0 == gather_spec(m, s0.0, s0.1),
        x_translation as int == axis_resolution_spec(
            Direction::East,
            Direction::West,
            snap0,
            h0,
            translation_spec(c.max_speed as int, c.intent.x as int, dt),
            half_girth,
            pa.x as int,
        ),
        pa1 == (Vec2 { x: x_translation, y: pa.y }),
        h1 == footprint_spec(pa1, half_girth),
        s1 == surroundings_spec(h1),
        snap1 == if s1 != s0 {
            gather_spec(m, s1.0, s1.1)
        } else {
            snap0
        },
        y_translation as int == axis_resolution_spec(
            Direction::South,
            Direction::North,
            snap1,
            h1,
            translation_spec(c.max_speed as int, c.intent.y as int, dt),
            half_girth,
            pa.y as int,
        ),
        r.x == x_translation - OFFSET_UNITS,
        r.y == OFFSET_UNITS - y_translation,
    ensures
        r == tick_spec(m, c, position, dt),
{
}

/// Scaling a bounded product down by the subunit count keeps it within the
/// bound.
proof fn lemma_mul_div_bound(a: int, b: int, bound: int)
    requires
        bound >= 0,
        -1000 * bound <= a * b <= 1000 * bound,
    ensures
        -bound <= (a * b) / 1000 <= bound,
{
    lemma_div_is_ordered(a * b, 1000 * bound, 1000);
    lemma_div_is_ordered(-1000 * bound, a * b, 1000);
    assert((1000 * bound) / 1000 == bound) by (nonlinear_arith)
        requires bound >= 0
    ;
    assert((-1000 * bound) / 1000 == -bound) by (nonlinear_arith)
        requires bound >= 0
    ;
}

/// Bounds of the row-major snapshot index of a covered cell strictly before
/// column `xbound`.
proof fn lemma_snapshot_index(lox: int, loy: int, height: int, cx: int, cy: int, xbound: int)
    requires
        height > 0,
        lox <= cx < xbound,
        0 <= cy - loy < height,
    ensures
        0 <= (cx - lox) * height + (cy - loy),
        (cx - lox) * height + (cy - loy) < (xbound - lox) * height,
{
    assert((cx - lox) * height + (cy - loy) >= 0 && (cx - lox) * height + (cy - loy) < (xbound
        - lox) * height) by (nonlinear_arith)
        requires
            height > 0,
            lox <= cx < xbound,
            0 <= cy - loy < height,
    ;
}

} // verus!

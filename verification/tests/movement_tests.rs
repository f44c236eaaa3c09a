use maze_core::coordinate::Coordinate;
use maze_core::environment::{Direction, GroundType, ObstructionType, Tile, WorldMap};
use maze_core::hitbox::Hitbox;
use maze_core::movement::{
    apply_movement, apply_movement_in_one_direction, gather_map_obstructions,
    hitbox_surroundings, MovementController,
};
use maze_core::units::Vec2;

fn tile(obstruction: ObstructionType) -> Tile {
    Tile::new(GroundType::Grass, obstruction)
}

/// A map whose only obstruction is a unit square at cell (5, 5).
fn single_obstruction_map() -> WorldMap {
    let mut grid = Vec::new();
    for y in 0..11 {
        let mut row = Vec::new();
        for x in 0..11 {
            if x == 5 && y == 5 {
                row.push(tile(ObstructionType::Rock1));
            } else {
                row.push(tile(ObstructionType::Clear));
            }
        }
        grid.push(row);
    }
    WorldMap::from_grid(grid).unwrap()
}

/// A map with no obstruction anywhere.
fn open_map() -> WorldMap {
    let mut grid = Vec::new();
    for _ in 0..11 {
        let mut row = Vec::new();
        for _ in 0..11 {
            row.push(tile(ObstructionType::Clear));
        }
        grid.push(row);
    }
    WorldMap::from_grid(grid).unwrap()
}

fn walker(intent_x: i64, intent_y: i64, max_speed: i64) -> MovementController {
    MovementController {
        intent: Vec2::new(intent_x, intent_y),
        max_speed,
        girth: Some(Vec2::new(800, 800)),
    }
}

#[test]
fn controller_default_values() {
    let c = MovementController::default();
    assert_eq!(c.intent.x, 0);
    assert_eq!(c.intent.y, 0);
    assert_eq!(c.max_speed, 3000);
    assert!(c.girth.is_none());
}

#[test]
fn surroundings_extend_one_cell_out() {
    // Footprint 0.8x0.8 centred at (4.5, 5.5).
    let h = Hitbox::new(Vec2::new(4100, 5100), Vec2::new(4900, 5900));
    let (lo, hi) = hitbox_surroundings(&h);
    assert_eq!(lo, Coordinate::new(3, 4));
    assert_eq!(hi, Coordinate::new(5, 6));
}

#[test]
fn gather_records_obstructions_and_free_cells() {
    let map = single_obstruction_map();
    let snapshot = gather_map_obstructions(&(Coordinate::new(3, 4), Coordinate::new(5, 6)), &map);
    // The obstructed cell carries its tile square.
    let obs = snapshot.get(Coordinate::new(5, 5)).unwrap().unwrap();
    assert_eq!(obs.x1(), 5000);
    assert_eq!(obs.y1(), 5000);
    assert_eq!(obs.x2(), 6000);
    assert_eq!(obs.y2(), 6000);
    // A free cell in range carries an empty entry.
    assert_eq!(snapshot.get(Coordinate::new(4, 5)), Some(None));
    // A cell outside the gathered range has no entry at all.
    assert_eq!(snapshot.get(Coordinate::new(0, 0)), None);
}

#[test]
fn gather_marks_out_of_bounds_cells_free() {
    // Cells beyond the map edge are recorded as non-blocking.
    let map = single_obstruction_map();
    let snapshot = gather_map_obstructions(
        &(Coordinate::new(-2, -2), Coordinate::new(0, 0)),
        &map,
    );
    assert_eq!(snapshot.get(Coordinate::new(-1, -1)), Some(None));
    assert_eq!(snapshot.get(Coordinate::new(-2, 0)), Some(None));
    assert_eq!(snapshot.get(Coordinate::new(0, 0)), Some(None));
}

#[test]
fn resolver_clamps_flush_against_obstruction() {
    // Footprint 0.8x0.8 at (4.5, 5.5) asking to travel 2.0 tiles East stops
    // with its right edge flush against x = 5.0, i.e. centre 4.6.
    let map = single_obstruction_map();
    let h = Hitbox::new(Vec2::new(4100, 5100), Vec2::new(4900, 5900));
    let snapshot = gather_map_obstructions(&hitbox_surroundings(&h), &map);
    let travel_to = apply_movement_in_one_direction(
        &snapshot,
        (Direction::East, 2000),
        &h,
        Vec2::new(400, 400),
    );
    assert_eq!(travel_to, 4600);
}

#[test]
fn resolver_grants_full_translation_in_free_region() {
    let map = single_obstruction_map();
    let h = Hitbox::new(Vec2::new(2100, 8100), Vec2::new(2900, 8900));
    let snapshot = gather_map_obstructions(&hitbox_surroundings(&h), &map);
    let travel_to = apply_movement_in_one_direction(
        &snapshot,
        (Direction::East, 1000),
        &h,
        Vec2::new(400, 400),
    );
    assert_eq!(travel_to, 2900 + 1000 - 400);
}

#[test]
fn resolver_nearest_obstruction_wins() {
    // Two obstructions ahead in the travel lane: the clamp takes the
    // minimum of all adjusted stops, so the nearer one wins regardless of
    // enumeration order.
    let mut grid = Vec::new();
    for y in 0..11 {
        let mut row = Vec::new();
        for x in 0..11 {
            if y == 5 && (x == 4 || x == 6) {
                row.push(tile(ObstructionType::Rock2));
            } else {
                row.push(tile(ObstructionType::Clear));
            }
        }
        grid.push(row);
    }
    let map = WorldMap::from_grid(grid).unwrap();
    let h = Hitbox::new(Vec2::new(2100, 5100), Vec2::new(2900, 5900));
    let snapshot = gather_map_obstructions(&(Coordinate::new(1, 4), Coordinate::new(7, 6)), &map);
    let travel_to = apply_movement_in_one_direction(
        &snapshot,
        (Direction::East, 4000),
        &h,
        Vec2::new(400, 400),
    );
    // Flush against the west face of cell (4, 5), not cell (6, 5).
    assert_eq!(travel_to, 4000 - 400);
}

#[test]
fn resolver_clamps_west_and_north() {
    let map = single_obstruction_map();
    // Approaching the obstruction's east face from (6.5, 5.5) moving West.
    let h = Hitbox::new(Vec2::new(6100, 5100), Vec2::new(6900, 5900));
    let snapshot = gather_map_obstructions(&hitbox_surroundings(&h), &map);
    let travel_to = apply_movement_in_one_direction(
        &snapshot,
        (Direction::West, -1000),
        &h,
        Vec2::new(400, 400),
    );
    assert_eq!(travel_to, 6000 + 400);
    // Approaching the obstruction's south face from (5.5, 6.5) moving North.
    let h = Hitbox::new(Vec2::new(5100, 6100), Vec2::new(5900, 6900));
    let snapshot = gather_map_obstructions(&hitbox_surroundings(&h), &map);
    let travel_to = apply_movement_in_one_direction(
        &snapshot,
        (Direction::North, -1000),
        &h,
        Vec2::new(400, 400),
    );
    assert_eq!(travel_to, 6000 + 400);
}

#[test]
fn tick_stops_flush_moving_east() {
    // Scenario: map with one obstruction at cell (5,5); entity of girth
    // 0.8x0.8 at array position (4.5, 5.5) moving East 2.0 tiles in one tick.
    let map = single_obstruction_map();
    let controller = walker(1000, 0, 2000);
    // Array (4.5, 5.5) is render (-1000, 0); one second at 2 tiles/s.
    let r = apply_movement(&controller, Vec2::new(-1000, 0), 1000, &map);
    // Stops at centre x = 5.0 - 0.4 = 4.6, not at 6.5.
    assert_eq!(r.x, -900);
    assert_eq!(r.y, 0);
    // The footprint's right edge rests exactly on the obstruction's west
    // face: (render x + offset) + half girth == 5000.
    assert_eq!(r.x + 5500 + 400, 5000);
}

#[test]
fn tick_mirror_symmetry_east_west() {
    // Mirroring the east-bound run about the obstruction-centred line
    // x = 5.5 gives the west-bound stopping position.
    let map = single_obstruction_map();
    let east = apply_movement(&walker(1000, 0, 2000), Vec2::new(-1000, 0), 1000, &map);
    let west = apply_movement(&walker(-1000, 0, 2000), Vec2::new(1000, 0), 1000, &map);
    assert_eq!(east.x, -900);
    assert_eq!(west.x, 900);
    // Mirror-symmetric about render x = 0 (array x = 5.5).
    assert_eq!(west.x, -east.x);
    assert_eq!(east.y, 0);
    assert_eq!(west.y, 0);
}

#[test]
fn tick_zero_intent_is_bit_identical() {
    // Zero intent on both axes: position after the tick is identical to the
    // position before it, and nothing is gathered or resolved.
    let map = single_obstruction_map();
    let controller = MovementController {
        intent: Vec2::new(0, 0),
        max_speed: 3000,
        girth: Some(Vec2::new(800, 800)),
    };
    let before = Vec2::new(123, -456);
    let after = apply_movement(&controller, before, 16, &map);
    assert_eq!(after, before);
    // Even a girthless entity may rest.
    let resting = MovementController::default();
    let after = apply_movement(&resting, before, 16, &map);
    assert_eq!(after, before);
}

#[test]
fn tick_moves_freely_past_the_map_edge() {
    // A coordinate off the grid yields no tile, and the resolver treats it
    // as non-blocking: nothing clamps movement past the edge of an open map.
    let map = open_map();
    let controller = walker(-1000, 0, 2000);
    // Array (0.5, 3.5) is render (-5000, 2000); travel 2.0 tiles West.
    let r = apply_movement(&controller, Vec2::new(-5000, 2000), 1000, &map);
    // Full translation: centre x = 0.5 - 2.0 = -1.5.
    assert_eq!(r.x, -7000);
    assert_eq!(r.y, 2000);
}

#[test]
fn tick_clamps_south_against_inner_wall() {
    // The authored map has a wall across row 7: moving South from (4.5, 6.5)
    // stops with the bottom edge flush on y = 7.0.
    let map = WorldMap::default();
    let controller = walker(0, 1000, 1000);
    // Array (4.5, 6.5) is render (-1000, -1000).
    let r = apply_movement(&controller, Vec2::new(-1000, -1000), 1000, &map);
    assert_eq!(r.x, -1000);
    // Centre y = 7.0 - 0.4 = 6.6 in array space, render y = 5500 - 6600.
    assert_eq!(r.y, -1100);
}

#[test]
fn tick_clamps_north_against_top_wall() {
    let map = WorldMap::default();
    let controller = walker(0, -1000, 1000);
    // Array (4.5, 1.5) is render (-1000, 4000).
    let r = apply_movement(&controller, Vec2::new(-1000, 4000), 1000, &map);
    assert_eq!(r.x, -1000);
    // Centre y = 1.0 + 0.4 = 1.4 in array space, render y = 5500 - 1400.
    assert_eq!(r.y, 4100);
}

#[test]
fn tick_diagonal_resolves_x_before_y() {
    // A fast diagonal move whose x leg shifts the footprint's bounding cell
    // range: the snapshot is re-taken before the y leg, and both legs get
    // their full translation in open ground.
    let map = single_obstruction_map();
    let controller = walker(707, 707, 2000);
    // Array (2.5, 4.5) is render (-3000, 1000).
    let r = apply_movement(&controller, Vec2::new(-3000, 1000), 1000, &map);
    // Per axis: v = 2000 * 707 / 1000 = 1414; full translation on both axes.
    assert_eq!(r.x, -3000 + 1414);
    assert_eq!(r.y, 1000 - 1414);
}

#[test]
fn tick_wall_slide_keeps_free_axis() {
    // Diagonal movement blocked only on the y axis slides along x: moving
    // South-East above the authored map's row-7 wall, x gets its full
    // translation and y clamps flush against the wall.
    let map = WorldMap::default();
    let controller = walker(1000, 1000, 1000);
    // Array (4.5, 6.5) is render (-1000, -1000).
    let r = apply_movement(&controller, Vec2::new(-1000, -1000), 1000, &map);
    // x slides the full tile: centre 5.5; y stops at 7.0 - 0.4 = 6.6.
    assert_eq!(r.x, 0);
    assert_eq!(r.y, -1100);
}

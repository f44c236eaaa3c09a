use maze_core::coordinate::Coordinate;
use maze_core::environment::{GroundType, ObstructionType, Tile, WorldMap};

fn clear_tile() -> Tile {
    Tile::new(GroundType::Grass, ObstructionType::Clear)
}

fn empty_grid() -> Vec<Vec<Tile>> {
    let mut grid = Vec::new();
    for _ in 0..11 {
        let mut row = Vec::new();
        for _ in 0..11 {
            row.push(clear_tile());
        }
        grid.push(row);
    }
    grid
}

#[test]
fn is_obstruction_true_for_every_tag_but_clear() {
    assert!(!Tile::new(GroundType::Grass, ObstructionType::Clear).is_obstruction());
    assert!(Tile::new(GroundType::Grass, ObstructionType::WallV).is_obstruction());
    assert!(Tile::new(GroundType::Grass, ObstructionType::WallH).is_obstruction());
    assert!(Tile::new(GroundType::Grass, ObstructionType::Tower).is_obstruction());
    assert!(Tile::new(GroundType::Grass, ObstructionType::Rock1).is_obstruction());
    assert!(Tile::new(GroundType::Grass, ObstructionType::Rock2).is_obstruction());
    assert!(Tile::new(GroundType::Grass, ObstructionType::Rock3).is_obstruction());
}

#[test]
fn tile_hitbox_is_unit_square_at_cell() {
    let tile = Tile::new(GroundType::Grass, ObstructionType::Tower);
    let h = tile.hitbox(Coordinate::new(5, 5));
    assert_eq!(h.x1(), 5000);
    assert_eq!(h.y1(), 5000);
    assert_eq!(h.x2(), 6000);
    assert_eq!(h.y2(), 6000);
    let h = tile.hitbox(Coordinate::new(-2, 3));
    assert_eq!(h.x1(), -2000);
    assert_eq!(h.y1(), 3000);
    assert_eq!(h.x2(), -1000);
    assert_eq!(h.y2(), 4000);
}

#[test]
fn at_out_of_bounds_is_none() {
    // An 11x11 map returns nothing for coordinates off the grid.
    let map = WorldMap::default();
    assert!(map.at(Coordinate::new(-1, 3)).is_none());
    assert!(map.at(Coordinate::new(11, 0)).is_none());
    assert!(map.at(Coordinate::new(0, -1)).is_none());
    assert!(map.at(Coordinate::new(5, 11)).is_none());
    assert!(map.at(Coordinate::new(0, 0)).is_some());
    assert!(map.at(Coordinate::new(10, 10)).is_some());
}

#[test]
fn default_map_layout_spot_checks() {
    let map = WorldMap::default();
    // Corner towers.
    assert_eq!(map.at(Coordinate::new(0, 0)).unwrap().obstruction, ObstructionType::Tower);
    assert_eq!(map.at(Coordinate::new(10, 10)).unwrap().obstruction, ObstructionType::Tower);
    // Top and bottom walls.
    assert_eq!(map.at(Coordinate::new(5, 0)).unwrap().obstruction, ObstructionType::WallH);
    assert_eq!(map.at(Coordinate::new(3, 10)).unwrap().obstruction, ObstructionType::WallH);
    // Side walls.
    assert_eq!(map.at(Coordinate::new(0, 4)).unwrap().obstruction, ObstructionType::WallV);
    assert_eq!(map.at(Coordinate::new(10, 6)).unwrap().obstruction, ObstructionType::WallV);
    // The east edge is open beside the finish line.
    assert_eq!(map.at(Coordinate::new(10, 1)).unwrap().obstruction, ObstructionType::Clear);
    assert_eq!(map.at(Coordinate::new(10, 2)).unwrap().obstruction, ObstructionType::Clear);
    // The west edge is open near the bottom.
    assert_eq!(map.at(Coordinate::new(0, 8)).unwrap().obstruction, ObstructionType::Clear);
    assert_eq!(map.at(Coordinate::new(0, 9)).unwrap().obstruction, ObstructionType::Clear);
    // The inner wall across row 7.
    assert_eq!(map.at(Coordinate::new(0, 7)).unwrap().obstruction, ObstructionType::Tower);
    assert_eq!(map.at(Coordinate::new(4, 7)).unwrap().obstruction, ObstructionType::WallH);
    assert_eq!(map.at(Coordinate::new(7, 7)).unwrap().obstruction, ObstructionType::Tower);
    assert_eq!(map.at(Coordinate::new(8, 7)).unwrap().obstruction, ObstructionType::Clear);
    // Rock clusters.
    assert_eq!(map.at(Coordinate::new(3, 2)).unwrap().obstruction, ObstructionType::Rock2);
    assert_eq!(map.at(Coordinate::new(2, 3)).unwrap().obstruction, ObstructionType::Rock1);
    assert_eq!(map.at(Coordinate::new(9, 3)).unwrap().obstruction, ObstructionType::Rock3);
    assert_eq!(map.at(Coordinate::new(6, 4)).unwrap().obstruction, ObstructionType::Rock1);
    // An open interior cell.
    assert_eq!(map.at(Coordinate::new(5, 5)).unwrap().obstruction, ObstructionType::Clear);
    // Ground decorations.
    assert_eq!(map.at(Coordinate::new(3, 2)).unwrap().ground, GroundType::DirtH);
    assert_eq!(map.at(Coordinate::new(7, 4)).unwrap().ground, GroundType::DirtV);
    assert_eq!(map.at(Coordinate::new(5, 5)).unwrap().ground, GroundType::Grass);
}

#[test]
fn from_grid_accepts_full_square_only() {
    assert!(WorldMap::from_grid(empty_grid()).is_some());
    let mut short = empty_grid();
    short.pop();
    assert!(WorldMap::from_grid(short).is_none());
    let mut ragged = empty_grid();
    ragged[4].pop();
    assert!(WorldMap::from_grid(ragged).is_none());
    assert!(WorldMap::from_grid(Vec::new()).is_none());
}

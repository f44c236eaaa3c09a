//! Tiles, obstruction tags and the world map.

use vstd::prelude::*;

verus! {

use crate::coordinate::Coordinate;
use crate::hitbox::Hitbox;
use crate::space::MAP_DIM;
use crate::units::{Vec2, SUBUNITS, cell_ok};
use crate::world_map_array::{authored_grid, authored_ground, authored_obstruction};

/// A direction of travel in array space: North is toward decreasing y, South
/// toward increasing y, East toward increasing x, West toward decreasing x.
#[derive(Clone, Copy, PartialEq, Eq, Structural, Debug)]
pub enum Direction {
    North,
    South,
    East,
    West,
}

/// Cosmetic ground decoration of a tile; irrelevant to collision.
#[derive(Clone, Copy, PartialEq, Eq, Structural, Debug)]
pub enum GroundType {
    Grass,
    DirtV,
    DirtH,
}

/// Obstruction tag of a tile. Every tag except `Clear` makes the tile's cell
/// impassable.
#[derive(Clone, Copy, PartialEq, Eq, Structural, Debug)]
pub enum ObstructionType {
    Clear,
    WallV,
    WallH,
    Tower,
    Rock1,
    Rock2,
    Rock3,
}

/// One grid cell: a ground decoration and an obstruction tag.
#[derive(Clone, Copy, PartialEq, Eq, Structural, Debug)]
pub struct Tile {
    pub ground: GroundType,
    pub obstruction: ObstructionType,
}

/// The unit tile square occupying cell `(cx, cy)`, in subunits.
pub open spec fn tile_hitbox(cx: int, cy: int) -> Hitbox {
    Hitbox {
        min: Vec2 { x: (cx * SUBUNITS) as i64, y: (cy * SUBUNITS) as i64 },
        max: Vec2 { x: (cx * SUBUNITS + SUBUNITS) as i64, y: (cy * SUBUNITS + SUBUNITS) as i64 },
    }
}

impl Tile {
    pub fn new(ground: GroundType, obstruction: ObstructionType) -> (t: Tile)
        ensures
            t.ground == ground,
            t.obstruction == obstruction,
    {
        Tile { ground, obstruction }
    }

    /// The tile blocks movement: its obstruction tag is anything but `Clear`.
    pub open spec fn is_obstruction_spec(self) -> bool {
        self.obstruction != ObstructionType::Clear
    }

    pub fn is_obstruction(&self) -> (r: bool)
        ensures
            r == self.is_obstruction_spec(),
    {
        match self.obstruction {
            ObstructionType::Clear => false,
            _ => true,
        }
    }

    /// The space this tile occupies, given the coordinate it lives at: the
    /// unit square of that cell.
    pub fn hitbox(&self, coordinate: Coordinate) -> (r: Hitbox)
        requires
            cell_ok(coordinate.x as int),
            cell_ok(coordinate.y as int),
        ensures
            r == tile_hitbox(coordinate.x as int, coordinate.y as int),
            r.wf(),
    {
        let corner = coordinate.to_vec2();
        Hitbox::new(corner, Vec2 { x: corner.x + SUBUNITS, y: corner.y + SUBUNITS })
    }
}

/// A fixed `MAP_DIM` x `MAP_DIM` grid of tiles, indexed `grid[y][x]` in array
/// space. Fully populated at construction and immutable during gameplay.
#[derive(Debug)]
pub struct WorldMap {
    pub grid: Vec<Vec<Tile>>,
}

impl WorldMap {
    /// The grid is a fully populated square of side `MAP_DIM`.
    pub open spec fn wf(self) -> bool {
        &&& self.grid@.len() == MAP_DIM
        &&& forall|y: int| 0 <= y < MAP_DIM ==> (#[trigger] self.grid@[y])@.len() == MAP_DIM
    }

    /// The coordinate addresses a cell of the grid.
    pub open spec fn in_bounds(cx: int, cy: int) -> bool {
        &&& 0 <= cx < MAP_DIM
        &&& 0 <= cy < MAP_DIM
    }

    /// Tile stored at `(cx, cy)`; meaningful only in bounds.
    pub open spec fn tile_at(self, cx: int, cy: int) -> Tile {
        self.grid@[cy]@[cx]
    }

    /// Lookup result for a coordinate: the tile in bounds, nothing outside.
    pub open spec fn at_spec(self, c: Coordinate) -> Option<Tile> {
        if Self::in_bounds(c.x as int, c.y as int) {
            Some(self.tile_at(c.x as int, c.y as int))
        } else {
            None
        }
    }

    /// Look up the tile at a world-array coordinate. Never panics: a
    /// coordinate outside `[0, MAP_DIM)` on either axis yields `None`.
    pub fn at(&self, coordinate: Coordinate) -> (r: Option<Tile>)
        requires
            self.wf(),
        ensures
            r == self.at_spec(coordinate),
    {
        if coordinate.x < MAP_DIM && coordinate.x >= 0 && coordinate.y < MAP_DIM && coordinate.y
            >= 0 {
            Some(self.grid[coordinate.y as usize][coordinate.x as usize])
        } else {
            None
        }
    }

    /// Build a map from an explicit grid, rejecting one that is not a fully
    /// populated `MAP_DIM` x `MAP_DIM` square.
    pub fn from_grid(grid: Vec<Vec<Tile>>) -> (r: Option<WorldMap>)
        ensures
            match r {
                Some(m) => {
                    &&& m.wf()
                    &&& m.grid@ == grid@
                },
                None => !(grid@.len() == MAP_DIM && forall|y: int|
                    0 <= y < MAP_DIM ==> (#[trigger] grid@[y])@.len() == MAP_DIM),
            },
    {
        if grid.len() != MAP_DIM as usize {
            return None;
        }
        let mut y: usize = 0;
        while y < MAP_DIM as usize
            invariant
                grid@.len() == MAP_DIM,
                y <= MAP_DIM,
                forall|j: int| 0 <= j < y ==> (#[trigger] grid@[j])@.len() == MAP_DIM,
            decreases MAP_DIM - y,
        {
            if grid[y].len() != MAP_DIM as usize {
                return None;
            }
            y = y + 1;
        }
        Some(WorldMap { grid })
    }
}

impl Default for WorldMap {
    /// The authored map that ships with the maze: a walled arena of side
    /// `MAP_DIM` with rock clusters, an opening on the east edge and one on
    /// the west edge.
    fn default() -> (r: WorldMap)
        ensures
            r.wf(),
            forall|cx: int, cy: int|
                WorldMap::in_bounds(cx, cy) ==> {
                    &&& (#[trigger] r.tile_at(cx, cy)).ground == authored_ground(cx, cy)
                    &&& r.tile_at(cx, cy).obstruction == authored_obstruction(cx, cy)
                },
    {
        WorldMap { grid: authored_grid() }
    }
}

} // verus!

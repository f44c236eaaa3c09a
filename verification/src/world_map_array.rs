//! The authored tile map.
//!
//! The layout is stated once, as a pair of spec functions from a cell
//! coordinate to its ground decoration and obstruction tag; the executable
//! builders are proved to produce exactly that layout.

use vstd::prelude::*;

verus! {

use crate::environment::{GroundType, ObstructionType, Tile};
use crate::space::MAP_DIM;

/// Ground decoration authored at cell `(x, y)`: grass except for a few dirt
/// patches.
pub open spec fn authored_ground(x: int, y: int) -> GroundType {
    if y == 2 && x == 3 {
        GroundType::DirtH
    } else if y == 4 && x == 7 {
        GroundType::DirtV
    } else if y == 5 && x == 4 {
        GroundType::DirtH
    } else if y == 9 && x == 9 {
        GroundType::DirtV
    } else {
        GroundType::Grass
    }
}

/// Obstruction authored at cell `(x, y)`: a wall around the arena with an
/// opening on the east edge (rows 1 and 2) and one on the west edge (rows 8
/// and 9), an inner wall across row 7, and a few rock clusters.
pub open spec fn authored_obstruction(x: int, y: int) -> ObstructionType {
    if y == 0 {
        if x == 0 {
            ObstructionType::Tower
        } else {
            ObstructionType::WallH
        }
    } else if y == 10 {
        if x == 10 {
            ObstructionType::Tower
        } else {
            ObstructionType::WallH
        }
    } else if y == 7 {
        if x == 0 || x == 7 {
            ObstructionType::Tower
        } else if x <= 6 {
            ObstructionType::WallH
        } else if x == 10 {
            ObstructionType::WallV
        } else {
            ObstructionType::Clear
        }
    } else if x == 0 && y <= 6 {
        ObstructionType::WallV
    } else if x == 10 && y == 3 {
        ObstructionType::Tower
    } else if x == 10 && y >= 4 {
        ObstructionType::WallV
    } else if y == 2 && x == 3 {
        ObstructionType::Rock2
    } else if y == 3 && x == 2 {
        ObstructionType::Rock1
    } else if y == 3 && x == 3 {
        ObstructionType::Rock2
    } else if y == 3 && x == 7 {
        ObstructionType::Rock1
    } else if y == 3 && x == 8 {
        ObstructionType::Rock2
    } else if y == 3 && x == 9 {
        ObstructionType::Rock3
    } else if y == 4 && x == 6 {
        ObstructionType::Rock1
    } else {
        ObstructionType::Clear
    }
}

/// The tile authored at cell `(x, y)`.
fn authored_tile(x: i32, y: i32) -> (t: Tile)
    ensures
        t.ground == authored_ground(x as int, y as int),
        t.obstruction == authored_obstruction(x as int, y as int),
{
    let ground = if y == 2 && x == 3 {
        GroundType::DirtH
    } else if y == 4 && x == 7 {
        GroundType::DirtV
    } else if y == 5 && x == 4 {
        GroundType::DirtH
    } else if y == 9 && x == 9 {
        GroundType::DirtV
    } else {
        GroundType::Grass
    };
    let obstruction = if y == 0 {
        if x == 0 {
            ObstructionType::Tower
        } else {
            ObstructionType::WallH
        }
    } else if y == 10 {
        if x == 10 {
            ObstructionType::Tower
        } else {
            ObstructionType::WallH
        }
    } else if y == 7 {
        if x == 0 || x == 7 {
            ObstructionType::Tower
        } else if x <= 6 {
            ObstructionType::WallH
        } else if x == 10 {
            ObstructionType::WallV
        } else {
            ObstructionType::Clear
        }
    } else if x == 0 && y <= 6 {
        ObstructionType::WallV
    } else if x == 10 && y == 3 {
        ObstructionType::Tower
    } else if x == 10 && y >= 4 {
        ObstructionType::WallV
    } else if y == 2 && x == 3 {
        ObstructionType::Rock2
    } else if y == 3 && x == 2 {
        ObstructionType::Rock1
    } else if y == 3 && x == 3 {
        ObstructionType::Rock2
    } else if y == 3 && x == 7 {
        ObstructionType::Rock1
    } else if y == 3 && x == 8 {
        ObstructionType::Rock2
    } else if y == 3 && x == 9 {
        ObstructionType::Rock3
    } else if y == 4 && x == 6 {
        ObstructionType::Rock1
    } else {
        ObstructionType::Clear
    };
    Tile { ground, obstruction }
}

/// Build the authored grid, row by row.
pub fn authored_grid() -> (g: Vec<Vec<Tile>>)
    ensures
        g@.len() == MAP_DIM,
        forall|y: int| 0 <= y < MAP_DIM ==> (#[trigger] g@[y])@.len() == MAP_DIM,
        forall|x: int, y: int|
            0 <= x < MAP_DIM && 0 <= y < MAP_DIM ==> {
                &&& (#[trigger] g@[y]@[x]).ground == authored_ground(x, y)
                &&& g@[y]@[x].obstruction == authored_obstruction(x, y)
            },
{
    let mut g: Vec<Vec<Tile>> = Vec::new();
    let mut y: i32 = 0;
    while y < MAP_DIM
        invariant
            0 <= y <= MAP_DIM,
            g@.len() == y,
            forall|j: int| 0 <= j < y ==> (#[trigger] g@[j])@.len() == MAP_DIM,
            forall|i: int, j: int|
                0 <= i < MAP_DIM && 0 <= j < y ==> {
                    &&& (#[trigger] g@[j]@[i]).ground == authored_ground(i, j)
                    &&& g@[j]@[i].obstruction == authored_obstruction(i, j)
                },
        decreases MAP_DIM - y,
    {
        let mut row: Vec<Tile> = Vec::new();
        let mut x: i32 = 0;
        while x < MAP_DIM
            invariant
                0 <= x <= MAP_DIM,
                0 <= y < MAP_DIM,
                row@.len() == x,
                forall|i: int| 0 <= i < x ==> {
                    &&& (#[trigger] row@[i]).ground == authored_ground(i, y as int)
                    &&& row@[i].obstruction == authored_obstruction(i, y as int)
                },
            decreases MAP_DIM - x,
        {
            row.push(authored_tile(x, y));
            x = x + 1;
        }
        g.push(row);
        y = y + 1;
    }
    g
}

} // verus!

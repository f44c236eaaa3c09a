//! Core logic of a tile-grid maze game: coordinate-space conversion, an
//! axis-aligned hitbox type, a fixed grid of tiles with obstruction queries,
//! a swept per-axis collision resolver, and the maze-progress state machine.
//!
//! All geometry is carried out on integer subunit coordinates (a fixed number
//! of subunits per tile), so every computation here is exact.

pub mod coordinate;
pub mod environment;
pub mod hitbox;
pub mod maze;
pub mod movement;
pub mod space;
pub mod units;
pub mod world_map_array;

//! Maze-completion progress and the finish line.

use vstd::prelude::*;

verus! {

use crate::coordinate::Coordinate;
use crate::hitbox::Hitbox;
use crate::movement::{footprint_spec, half_girth_spec, MovementController};
use crate::space::OFFSET_UNITS;
use crate::units::Vec2;

/// Maze-session progress. Transitions run only forward: `Unstarted` to
/// `Start` when the maze is initialized, `Start` to `Seeking` once the entry
/// hook fires, `Seeking` to `Finish` on goal crossing. `Finish` is terminal.
#[derive(Clone, Copy, PartialEq, Eq, Structural, Hash, Debug)]
pub enum MazeProgress {
    Unstarted,
    Start,
    Seeking,
    Finish,
}

/// The static goal region: a hitbox spanning one or more cells, created once
/// at maze setup and immutable thereafter.
#[derive(Clone, Copy, PartialEq, Eq, Structural, Debug)]
pub struct FinishLine {
    pub hitbox: Hitbox,
}

impl FinishLine {
    pub fn new(hitbox: Hitbox) -> (r: FinishLine)
        ensures
            r.hitbox == hitbox,
    {
        FinishLine { hitbox }
    }
}

/// How far along the session is; transitions may only increase it.
pub open spec fn progress_rank(p: MazeProgress) -> int {
    match p {
        MazeProgress::Unstarted => 0,
        MazeProgress::Start => 1,
        MazeProgress::Seeking => 2,
        MazeProgress::Finish => 3,
    }
}

/// State after the maze is initialized: entering gameplay starts the session.
pub open spec fn progress_after_init(p: MazeProgress) -> MazeProgress {
    if p is Unstarted {
        MazeProgress::Start
    } else {
        p
    }
}

/// State after the `Start` entry hook fires: the session begins seeking.
pub open spec fn progress_after_start_hook(p: MazeProgress) -> MazeProgress {
    if p is Start {
        MazeProgress::Seeking
    } else {
        p
    }
}

/// State after one crossing check: a crossing observed while seeking
/// finishes the maze; anything else changes nothing.
pub open spec fn progress_after_crossing_check(p: MazeProgress, crossed: bool) -> MazeProgress {
    if p is Seeking && crossed {
        MazeProgress::Finish
    } else {
        p
    }
}

/// The entity's array-space footprint lies entirely inside the finish line's
/// hitbox (an entity without a girth never crosses).
pub open spec fn crossing_spec(
    finish_line: FinishLine,
    controller: MovementController,
    position: Vec2,
) -> bool {
    &&& controller.girth is Some
    &&& finish_line.hitbox.contains_hitbox_spec(
        footprint_spec(
            Vec2 { x: (position.x + OFFSET_UNITS) as i64, y: (OFFSET_UNITS - position.y) as i64 },
            half_girth_spec(controller.girth->0),
        ),
    )
}

/// Move the session from `Unstarted` to `Start` when gameplay is entered.
pub fn init_maze(maze_progress: &mut MazeProgress)
    ensures
        *final(maze_progress) == progress_after_init(*old(maze_progress)),
{
    if let MazeProgress::Unstarted = maze_progress {
        *maze_progress = MazeProgress::Start;
    }
}

/// Fire the `Start` entry hook once: the session begins seeking the goal.
pub fn start_seeking(maze_progress: &mut MazeProgress)
    ensures
        *final(maze_progress) == progress_after_start_hook(*old(maze_progress)),
{
    if let MazeProgress::Start = maze_progress {
        *maze_progress = MazeProgress::Seeking;
    }
}

/// The authored finish line of the maze: it covers the two open cells of the
/// east edge, spanning array-space coordinates (10, 1) to (11, 3).
pub fn spawn_finish_line() -> (r: FinishLine)
    ensures
        r.hitbox.min.x == 10_000,
        r.hitbox.min.y == 1000,
        r.hitbox.max.x == 11_000,
        r.hitbox.max.y == 3000,
        r.hitbox.wf(),
{
    let corners = (Coordinate::new(10, 1).to_vec2(), Coordinate::new(10 + 1, 2 + 1).to_vec2());
    FinishLine::new(Hitbox::from_corners(corners.0, corners.1))
}

/// One crossing check, run once per tick: while the session is seeking,
/// recompute the entity's array-space footprint from its render-space
/// position and girth, and finish the maze when the finish line's hitbox
/// fully contains it. In any other state the check changes nothing.
pub fn detect_finish_line_crossing(
    maze_progress: &mut MazeProgress,
    finish_line: &FinishLine,
    controller: &MovementController,
    position: Vec2,
)
    requires
        -100_000_000_000 <= position.x <= 100_000_000_000,
        -100_000_000_000 <= position.y <= 100_000_000_000,
        controller.girth is Some ==> 0 <= controller.girth->0.x <= 10_000_000 && 0
            <= controller.girth->0.y <= 10_000_000,
    ensures
        *final(maze_progress) == progress_after_crossing_check(
            *old(maze_progress),
            crossing_spec(*finish_line, *controller, position),
        ),
{
    let seeking = match maze_progress {
        MazeProgress::Seeking => true,
        _ => false,
    };
    if !seeking {
        return;
    }
    let player_position = crate::space::world_array_position_from_render_position(
        position.x,
        position.y,
    );
    if let Some(player_girth) = controller.girth {
        let half_girth = Vec2 { x: player_girth.x / 2, y: player_girth.y / 2 };
        let player_hitbox = Hitbox::from_corners(
            Vec2 { x: player_position.x - half_girth.x, y: player_position.y - half_girth.y },
            Vec2 { x: player_position.x + half_girth.x, y: player_position.y + half_girth.y },
        );
        proof {
            assert(player_hitbox == footprint_spec(player_position, half_girth));
        }
        if finish_line.hitbox.contains_hitbox(player_hitbox) {
            *maze_progress = MazeProgress::Finish;
        }
    }
}

/// Progress transitions only run forward, and `Finish` is terminal: once the
/// maze is finished, initialization, the start hook and any number of further
/// crossing checks leave the state untouched.
pub proof fn lemma_progress_forward(p: MazeProgress, crossed: bool)
    ensures
        progress_rank(progress_after_init(p)) >= progress_rank(p),
        progress_rank(progress_after_start_hook(p)) >= progress_rank(p),
        progress_rank(progress_after_crossing_check(p, crossed)) >= progress_rank(p),
        p is Finish ==> progress_after_init(p) == p,
        p is Finish ==> progress_after_start_hook(p) == p,
        p is Finish ==> progress_after_crossing_check(p, crossed) == p,
{
}

} // verus!

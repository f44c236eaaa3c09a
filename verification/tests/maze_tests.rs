use maze_core::environment::WorldMap;
use maze_core::maze::{
    detect_finish_line_crossing, init_maze, spawn_finish_line, start_seeking, FinishLine,
    MazeProgress,
};
use maze_core::hitbox::Hitbox;
use maze_core::movement::{apply_movement, MovementController};
use maze_core::units::Vec2;

fn player() -> MovementController {
    MovementController {
        intent: Vec2::new(0, 0),
        max_speed: 3000,
        girth: Some(Vec2::new(800, 800)),
    }
}

#[test]
fn finish_line_spans_goal_cells() {
    // The finish line covers array-space coordinates (10, 1) to (11, 3).
    let finish = spawn_finish_line();
    assert_eq!(finish.hitbox.x1(), 10_000);
    assert_eq!(finish.hitbox.y1(), 1000);
    assert_eq!(finish.hitbox.x2(), 11_000);
    assert_eq!(finish.hitbox.y2(), 3000);
}

#[test]
fn progress_moves_forward_only() {
    let mut progress = MazeProgress::Unstarted;
    init_maze(&mut progress);
    assert_eq!(progress, MazeProgress::Start);
    // Initializing again does not reset an ongoing session.
    init_maze(&mut progress);
    assert_eq!(progress, MazeProgress::Start);
    start_seeking(&mut progress);
    assert_eq!(progress, MazeProgress::Seeking);
    start_seeking(&mut progress);
    assert_eq!(progress, MazeProgress::Seeking);
    init_maze(&mut progress);
    assert_eq!(progress, MazeProgress::Seeking);
}

#[test]
fn start_hook_does_not_fire_before_init() {
    let mut progress = MazeProgress::Unstarted;
    start_seeking(&mut progress);
    assert_eq!(progress, MazeProgress::Unstarted);
}

#[test]
fn crossing_fires_once_while_seeking() {
    // The entity's footprint fully enters the goal rectangle while in
    // Seeking: progress transitions to Finish exactly once and stays there.
    let finish = spawn_finish_line();
    let controller = player();
    // Array centre (10.5, 2.0) is render (5000, 3500); the 0.8x0.8 footprint
    // lies entirely inside the finish line.
    let inside = Vec2::new(5000, 3500);
    let mut progress = MazeProgress::Seeking;
    detect_finish_line_crossing(&mut progress, &finish, &controller, inside);
    assert_eq!(progress, MazeProgress::Finish);
    // Repeated ticks at rest in the goal region never re-fire a transition
    // or further mutate state.
    detect_finish_line_crossing(&mut progress, &finish, &controller, inside);
    assert_eq!(progress, MazeProgress::Finish);
    detect_finish_line_crossing(&mut progress, &finish, &controller, inside);
    assert_eq!(progress, MazeProgress::Finish);
}

#[test]
fn partial_overlap_does_not_finish() {
    let finish = spawn_finish_line();
    let controller = player();
    // Array centre (9.8, 2.0): the footprint reaches from 9.4 to 10.2, only
    // partially inside the goal rectangle.
    let straddling = Vec2::new(4300, 3500);
    let mut progress = MazeProgress::Seeking;
    detect_finish_line_crossing(&mut progress, &finish, &controller, straddling);
    assert_eq!(progress, MazeProgress::Seeking);
}

#[test]
fn crossing_checks_run_only_while_seeking() {
    let finish = spawn_finish_line();
    let controller = player();
    let inside = Vec2::new(5000, 3500);
    let mut progress = MazeProgress::Unstarted;
    detect_finish_line_crossing(&mut progress, &finish, &controller, inside);
    assert_eq!(progress, MazeProgress::Unstarted);
    let mut progress = MazeProgress::Start;
    detect_finish_line_crossing(&mut progress, &finish, &controller, inside);
    assert_eq!(progress, MazeProgress::Start);
}

#[test]
fn girthless_entity_never_crosses() {
    let finish = spawn_finish_line();
    let controller = MovementController::default();
    let inside = Vec2::new(5000, 3500);
    let mut progress = MazeProgress::Seeking;
    detect_finish_line_crossing(&mut progress, &finish, &controller, inside);
    assert_eq!(progress, MazeProgress::Seeking);
}

#[test]
fn finish_is_idempotent_under_resting_ticks() {
    // Once Finish is reached, ticks at rest in the goal region neither move
    // the entity nor change the progress state.
    let map = WorldMap::default();
    let finish = spawn_finish_line();
    let controller = player();
    let inside = Vec2::new(5000, 3500);
    let mut progress = MazeProgress::Seeking;
    detect_finish_line_crossing(&mut progress, &finish, &controller, inside);
    assert_eq!(progress, MazeProgress::Finish);
    let mut position = inside;
    for _ in 0..3 {
        position = apply_movement(&controller, position, 16, &map);
        assert_eq!(position, inside);
        detect_finish_line_crossing(&mut progress, &finish, &controller, position);
        assert_eq!(progress, MazeProgress::Finish);
    }
}

#[test]
fn custom_finish_line_keeps_its_hitbox() {
    let h = Hitbox::new(Vec2::new(1000, 2000), Vec2::new(3000, 4000));
    let finish = FinishLine::new(h);
    assert_eq!(finish.hitbox, h);
}

use maze_core::space::{
    flipped_y_axis, render_position_from_world_array_position, render_x_from_world_array_x,
    render_y_from_world_array_y, world_array_position_from_render_position, MAP_DIM, OFFSET_UNITS,
};

#[test]
fn offset_is_half_the_map() {
    assert_eq!(MAP_DIM, 11);
    assert_eq!(OFFSET_UNITS * 2, 11 * 1000);
}

#[test]
fn array_from_render_matches_formula() {
    // Render-space origin is the map centre; array space starts at the
    // top-left corner, with y flipped.
    let p = world_array_position_from_render_position(0, 0);
    assert_eq!(p.x, 5500);
    assert_eq!(p.y, 5500);
    let p = world_array_position_from_render_position(-1000, 0);
    assert_eq!(p.x, 4500);
    assert_eq!(p.y, 5500);
    let p = world_array_position_from_render_position(2000, -1500);
    assert_eq!(p.x, 7500);
    assert_eq!(p.y, 7000);
}

#[test]
fn render_from_array_matches_formula() {
    let p = render_position_from_world_array_position(5500, 5500);
    assert_eq!(p.x, 0);
    assert_eq!(p.y, 0);
    let p = render_position_from_world_array_position(4500, 7000);
    assert_eq!(p.x, -1000);
    assert_eq!(p.y, -1500);
    assert_eq!(render_x_from_world_array_x(10_500), 5000);
    assert_eq!(render_y_from_world_array_y(2000), 3500);
}

#[test]
fn round_trip_is_identity() {
    // Converting to array space and back gives the original point, exactly.
    let samples: [(i64, i64); 6] =
        [(0, 0), (1, -1), (5500, 5500), (-12_345, 678), (999, -999), (250_000, -250_000)];
    for (x, y) in samples {
        let a = world_array_position_from_render_position(x, y);
        let r = render_position_from_world_array_position(a.x, a.y);
        assert_eq!(r.x, x);
        assert_eq!(r.y, y);
        let r2 = world_array_position_from_render_position(
            render_x_from_world_array_x(x),
            render_y_from_world_array_y(y),
        );
        assert_eq!(r2.x, x);
        assert_eq!(r2.y, y);
    }
}

#[test]
fn flipped_y_axis_negates() {
    assert_eq!(flipped_y_axis(7), -7);
    assert_eq!(flipped_y_axis(-7), 7);
    assert_eq!(flipped_y_axis(0), 0);
}

use maze_core::coordinate::Coordinate;
use maze_core::hitbox::Hitbox;
use maze_core::units::{floor_to_cell, mul_units, round_to_cell, trunc_to_cell, Vec2, SUBUNITS};

#[test]
fn subunit_scale() {
    assert_eq!(SUBUNITS, 1000);
}

#[test]
fn floor_conversion_rounds_down() {
    assert_eq!(floor_to_cell(0), 0);
    assert_eq!(floor_to_cell(999), 0);
    assert_eq!(floor_to_cell(1000), 1);
    assert_eq!(floor_to_cell(4999), 4);
    assert_eq!(floor_to_cell(-1), -1);
    assert_eq!(floor_to_cell(-1000), -1);
    assert_eq!(floor_to_cell(-1001), -2);
}

#[test]
fn round_conversion_half_away_from_zero() {
    assert_eq!(round_to_cell(499), 0);
    assert_eq!(round_to_cell(500), 1);
    assert_eq!(round_to_cell(1499), 1);
    assert_eq!(round_to_cell(-499), 0);
    assert_eq!(round_to_cell(-500), -1);
    assert_eq!(round_to_cell(-1500), -2);
}

#[test]
fn trunc_conversion_toward_zero() {
    assert_eq!(trunc_to_cell(999), 0);
    assert_eq!(trunc_to_cell(1999), 1);
    assert_eq!(trunc_to_cell(-999), 0);
    assert_eq!(trunc_to_cell(-1999), -1);
}

#[test]
fn mul_units_scales_products() {
    // 1.5 * 2.0 == 3.0
    assert_eq!(mul_units(1500, 2000), 3000);
    // 0.8 * 0.5 == 0.4
    assert_eq!(mul_units(800, 500), 400);
    // 3.0 tiles/s for 0.25 s
    assert_eq!(mul_units(3000, 250), 750);
    assert_eq!(mul_units(-1500, 2000), -3000);
}

#[test]
fn coordinate_conversions() {
    let c = Coordinate::new(5, 5);
    let v = c.to_vec2();
    assert_eq!(v.x, 5000);
    assert_eq!(v.y, 5000);
    let back = Coordinate::from_vec2_floor(Vec2::new(5999, 5000));
    assert_eq!(back, Coordinate::new(5, 5));
    let neg = Coordinate::from_vec2_floor(Vec2::new(-1, -1500));
    assert_eq!(neg, Coordinate::new(-1, -2));
    let rounded = Coordinate::from_vec2_round(Vec2::new(5499, 5500));
    assert_eq!(rounded, Coordinate::new(5, 6));
    let truncated = Coordinate::from_vec2_trunc(Vec2::new(-999, 1999));
    assert_eq!(truncated, Coordinate::new(0, 1));
}

#[test]
fn from_corners_sorts_each_axis() {
    let h = Hitbox::from_corners(Vec2::new(3000, 1000), Vec2::new(1000, 2000));
    assert_eq!(h.x1(), 1000);
    assert_eq!(h.y1(), 1000);
    assert_eq!(h.x2(), 3000);
    assert_eq!(h.y2(), 2000);
    assert_eq!(h.width(), 2000);
    assert_eq!(h.height(), 1000);
}

#[test]
fn translate_moves_both_corners() {
    let mut h = Hitbox::new(Vec2::new(0, 0), Vec2::new(1000, 1000));
    h.translate(Vec2::new(250, -250));
    assert_eq!(h.x1(), 250);
    assert_eq!(h.y1(), -250);
    assert_eq!(h.x2(), 1250);
    assert_eq!(h.y2(), 750);
}

#[test]
fn contains_is_inclusive() {
    let h = Hitbox::new(Vec2::new(0, 0), Vec2::new(1000, 1000));
    assert!(h.contains(Vec2::new(0, 0)));
    assert!(h.contains(Vec2::new(1000, 1000)));
    assert!(h.contains(Vec2::new(500, 999)));
    assert!(!h.contains(Vec2::new(1001, 500)));
    assert!(!h.contains(Vec2::new(500, -1)));
}

#[test]
fn intersects_counts_touching() {
    let a = Hitbox::new(Vec2::new(0, 0), Vec2::new(1000, 1000));
    // Sharing only an edge still intersects.
    let touching = Hitbox::new(Vec2::new(1000, 0), Vec2::new(2000, 1000));
    assert!(a.intersects(&touching));
    assert!(touching.intersects(&a));
    // Sharing only a corner point still intersects.
    let corner = Hitbox::new(Vec2::new(1000, 1000), Vec2::new(2000, 2000));
    assert!(a.intersects(&corner));
    // Strictly to one side on some axis: no intersection.
    let apart = Hitbox::new(Vec2::new(1001, 0), Vec2::new(2000, 1000));
    assert!(!a.intersects(&apart));
    let below = Hitbox::new(Vec2::new(0, 1001), Vec2::new(1000, 2000));
    assert!(!a.intersects(&below));
}

#[test]
fn contains_hitbox_is_full_containment() {
    let big = Hitbox::new(Vec2::new(0, 0), Vec2::new(3000, 3000));
    let inner = Hitbox::new(Vec2::new(1000, 1000), Vec2::new(2000, 2000));
    let flush = Hitbox::new(Vec2::new(0, 0), Vec2::new(3000, 3000));
    let poking_out = Hitbox::new(Vec2::new(2500, 2500), Vec2::new(3500, 3000));
    assert!(big.contains_hitbox(inner));
    assert!(big.contains_hitbox(flush));
    assert!(!big.contains_hitbox(poking_out));
    assert!(!inner.contains_hitbox(big));
}

use raycast::World;
use raycast::FX_HALF_PI;
use raycast::FX_ONE;
use raycast::FX_PI;
use raycast::FX_TWO_PI;

/// A 10x10 grid with a solid wall ring on the outer border and the observer
/// data used by the walled-room scenarios.
fn walled_room() -> World {
    let mut w = World::new(10, 10);
    for i in 0..10 {
        w.set_block(i, 0, true).unwrap();
        w.set_block(i, 9, true).unwrap();
        w.set_block(0, i, true).unwrap();
        w.set_block(9, i, true).unwrap();
    }
    w
}

#[test]
fn cast_is_finite_and_nonnegative_for_many_angles() {
    let w = walled_room();
    let angles = [
        0,
        1,
        -1,
        FX_HALF_PI,
        -FX_HALF_PI,
        FX_PI,
        -FX_PI,
        3 * FX_HALF_PI,
        2 * FX_PI,
        FX_TWO_PI,
        -FX_TWO_PI,
        7 * FX_TWO_PI + 12345,
        -9 * FX_TWO_PI - 54321,
        51472,
    ];
    for &a in angles.iter() {
        let d = w.cast(5 * FX_ONE, 5 * FX_ONE, a);
        assert!(d >= 0);
        assert!(d <= 15 * FX_ONE);
    }
}

#[test]
fn cast_toward_increasing_x_hits_ring_at_distance_four() {
    let w = walled_room();
    let d = w.cast(5 * FX_ONE, 5 * FX_ONE, 0);
    assert_eq!(d, 4 * FX_ONE);
}

#[test]
fn cast_toward_decreasing_x_hits_ring_wall() {
    // The candidate cell at each vertical line is the cell ahead in the
    // travel direction, so the ray stops at the near face (x = 1) of the wall
    // column at x = 0: four units from the observer at x = 5.
    let w = walled_room();
    let d = w.cast(5 * FX_ONE, 5 * FX_ONE, FX_PI);
    assert_eq!(d, 4 * FX_ONE);
}

#[test]
fn cast_straight_down_skips_degenerate_vertical_sweep() {
    let w = walled_room();
    let d = w.cast(5 * FX_ONE, 5 * FX_ONE, FX_HALF_PI);
    assert_eq!(d, 4 * FX_ONE);
}

#[test]
fn cast_straight_up_hits_ring_wall() {
    let w = walled_room();
    let d = w.cast(5 * FX_ONE, 5 * FX_ONE, -FX_HALF_PI);
    assert_eq!(d, 4 * FX_ONE);
}

#[test]
fn cast_diagonal_matches_euclidean_distance() {
    // 45 degrees toward the corner: the wall is 4 units away on both axes,
    // so the distance is 4 * sqrt(2), exact to the last fixed-point digit.
    let w = walled_room();
    let d = w.cast(5 * FX_ONE, 5 * FX_ONE, 51472);
    assert_eq!(d, 370727);
}

#[test]
fn cast_is_periodic_in_full_turns() {
    let w = walled_room();
    let d0 = w.cast(5 * FX_ONE, 5 * FX_ONE, 0);
    let d1 = w.cast(5 * FX_ONE, 5 * FX_ONE, 10 * FX_TWO_PI);
    assert_eq!(d0, d1);
}

#[test]
fn cast_in_empty_grid_runs_to_the_border() {
    let w = World::new(10, 10);
    let d = w.cast(5 * FX_ONE, 5 * FX_ONE, 0);
    assert_eq!(d, 5 * FX_ONE);
}

#[test]
fn cast_from_fractional_origin_rounds_to_next_line() {
    // Observer at (5.5, 5.25) looking toward increasing x, with an obstacle
    // at (7, 5): the first vertical lines ahead are x = 6 and x = 7, and the
    // ray stops on the obstacle's near face, 1.5 units away.
    let mut w = walled_room();
    w.set_block(7, 5, true).unwrap();
    let d = w.cast(5 * FX_ONE + FX_ONE / 2, 5 * FX_ONE + FX_ONE / 4, 0);
    assert_eq!(d, 3 * FX_ONE / 2);
}

#[test]
fn cast_backward_from_fractional_origin_floors() {
    // Looking toward decreasing x from (5.5, 5.25): the first line behind is
    // x = 5, and the ring wall's near face at x = 1 is 4.5 units away.
    let w = walled_room();
    let d = w.cast(5 * FX_ONE + FX_ONE / 2, 5 * FX_ONE + FX_ONE / 4, FX_PI);
    assert_eq!(d, 9 * FX_ONE / 2);
}

#[test]
fn cast_from_outside_the_grid_is_zero() {
    let w = walled_room();
    let d = w.cast(-3 * FX_ONE, 5 * FX_ONE, 0);
    assert_eq!(d, 0);
}

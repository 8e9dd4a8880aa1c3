use raycast::project_columns;
use raycast::ray_fan;
use raycast::World;
use raycast::FX_ONE;

/// 60 degrees in fixed-point radians.
const FOV_60: i64 = 68629;

fn walled_room() -> World {
    let mut w = World::new(10, 10);
    for i in 0..10 {
        w.set_block(i, 0, true).unwrap();
        w.set_block(i, 9, true).unwrap();
        w.set_block(0, i, true).unwrap();
        w.set_block(9, i, true).unwrap();
    }
    w
}

fn room_with_observer_at_center() -> World {
    let mut w = walled_room();
    w.move_user(5 * FX_ONE);
    w.rotate_user(raycast::FX_HALF_PI);
    w.move_user(5 * FX_ONE);
    w.rotate_user(-raycast::FX_HALF_PI);
    w
}

#[test]
fn center_column_has_no_fisheye_correction() {
    // With 100 columns the column at i = 50 points exactly along the facing
    // direction: its offset angle is zero, so the corrected distance is the
    // cast distance itself and the slice height is screen_h / distance.
    let w = room_with_observer_at_center();
    let d = w.cast(w.get_user_x(), w.get_user_y(), w.get_user_angle());
    assert_eq!(d, 4 * FX_ONE);
    let cols = project_columns(&w, FOV_60, 100, 600);
    assert_eq!(cols.len(), 100);
    assert_eq!(cols[50].slice_height as i64, 600 * FX_ONE / d);
    assert_eq!(cols[50].slice_height, 150);
    assert_eq!(cols[50].margin, 225);
}

#[test]
fn flat_wall_renders_flat_across_the_fan() {
    // Fisheye correction makes a flat wall seen head-on the same height in
    // every column, although the edge rays are geometrically longer.
    let w = room_with_observer_at_center();
    let cols = project_columns(&w, FOV_60, 100, 600);
    for c in cols.iter() {
        assert_eq!(c.slice_height, 150);
        assert_eq!(c.margin, 225);
    }
}

#[test]
fn margins_center_the_slice() {
    let w = room_with_observer_at_center();
    let cols = project_columns(&w, FOV_60, 64, 480);
    for c in cols.iter() {
        assert!(c.slice_height <= 480);
        assert_eq!(c.margin, (480 - c.slice_height) / 2);
    }
}

#[test]
fn degenerate_distance_clamps_to_full_height() {
    // Observer standing outside the grid: every cast is zero, and the
    // projector must clamp instead of dividing by zero.
    let mut w = walled_room();
    w.move_user(-3 * FX_ONE);
    let cols = project_columns(&w, FOV_60, 10, 600);
    for c in cols.iter() {
        assert_eq!(c.slice_height, 600);
        assert_eq!(c.margin, 0);
    }
}

#[test]
fn ray_fan_center_ray_points_along_facing() {
    let w = room_with_observer_at_center();
    let rays = ray_fan(&w, FOV_60, 100);
    assert_eq!(rays.len(), 100);
    assert_eq!(rays[50].0, w.get_user_angle());
    assert_eq!(rays[50].1, 4 * FX_ONE);
    // first ray points half the field of view to the left
    assert_eq!(rays[0].0, w.get_user_angle() - 34314);
}

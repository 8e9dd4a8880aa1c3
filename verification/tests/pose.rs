use raycast::World;
use raycast::FX_HALF_PI;
use raycast::FX_ONE;
use raycast::FX_PI;

#[test]
fn rotate_accumulates_without_wrapping() {
    let mut w = World::new(10, 10);
    for _ in 0..100 {
        w.rotate_user(FX_PI);
    }
    assert_eq!(w.get_user_angle(), 100 * FX_PI);
}

#[test]
fn rotate_round_trip_restores_angle_exactly() {
    let mut w = World::new(10, 10);
    w.rotate_user(777);
    let start = w.get_user_angle();
    for _ in 0..10 {
        w.rotate_user(1966);
    }
    for _ in 0..10 {
        w.rotate_user(-1966);
    }
    assert_eq!(w.get_user_angle(), start);
}

#[test]
fn move_round_trip_restores_position_exactly() {
    let mut w = World::new(10, 10);
    w.rotate_user(7 * 1966);
    let amount = 13107;
    w.move_user(amount);
    w.move_user(-amount);
    assert_eq!(w.get_user_x(), 0);
    assert_eq!(w.get_user_y(), 0);
    assert_eq!(w.get_user_angle(), 7 * 1966);
}

#[test]
fn move_along_angle_zero_advances_x_only() {
    let mut w = World::new(10, 10);
    w.move_user(3 * FX_ONE);
    assert_eq!(w.get_user_x(), 3 * FX_ONE);
    assert_eq!(w.get_user_y(), 0);
}

#[test]
fn move_straight_down_advances_y_only() {
    let mut w = World::new(10, 10);
    w.rotate_user(FX_HALF_PI);
    w.move_user(2 * FX_ONE);
    assert_eq!(w.get_user_x(), 0);
    assert_eq!(w.get_user_y(), 2 * FX_ONE);
}

#[test]
fn negative_move_goes_backward() {
    let mut w = World::new(10, 10);
    w.move_user(-5 * FX_ONE);
    assert_eq!(w.get_user_x(), -5 * FX_ONE);
    assert_eq!(w.get_user_y(), 0);
}

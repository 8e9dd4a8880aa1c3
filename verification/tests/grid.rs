use raycast::World;
use raycast::WorldError;

#[test]
fn new_world_is_all_free() {
    let w = World::new(4, 3);
    for y in 0..3 {
        for x in 0..4 {
            assert_eq!(w.block_at(x, y), Ok(false));
        }
    }
    assert_eq!(w.get_user_x(), 0);
    assert_eq!(w.get_user_y(), 0);
    assert_eq!(w.get_user_angle(), 0);
}

#[test]
fn set_then_get_returns_written_value() {
    let mut w = World::new(10, 10);
    assert_eq!(w.set_block(3, 7, true), Ok(()));
    assert_eq!(w.block_at(3, 7), Ok(true));
    assert_eq!(w.set_block(3, 7, false), Ok(()));
    assert_eq!(w.block_at(3, 7), Ok(false));
}

#[test]
fn set_leaves_other_cells_alone() {
    let mut w = World::new(5, 5);
    w.set_block(2, 2, true).unwrap();
    for y in 0..5 {
        for x in 0..5 {
            assert_eq!(w.block_at(x, y), Ok(x == 2 && y == 2));
        }
    }
}

#[test]
fn out_of_bounds_read_fails() {
    let w = World::new(10, 10);
    assert_eq!(w.block_at(10, 5), Err(WorldError::OutOfBounds));
    assert_eq!(w.block_at(5, 10), Err(WorldError::OutOfBounds));
    assert_eq!(w.block_at(10, 10), Err(WorldError::OutOfBounds));
}

#[test]
fn out_of_bounds_write_fails_and_changes_nothing() {
    let mut w = World::new(10, 10);
    assert_eq!(w.set_block(10, 5, true), Err(WorldError::OutOfBounds));
    assert_eq!(w.set_block(5, 10, true), Err(WorldError::OutOfBounds));
    for y in 0..10 {
        for x in 0..10 {
            assert_eq!(w.block_at(x, y), Ok(false));
        }
    }
}

#[test]
fn zero_sized_grid_rejects_every_access() {
    let mut w = World::new(0, 0);
    assert_eq!(w.block_at(0, 0), Err(WorldError::OutOfBounds));
    assert_eq!(w.set_block(0, 0, true), Err(WorldError::OutOfBounds));
}

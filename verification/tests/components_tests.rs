use iso_dungeon::components::MapPosition;

// World space is `iso_units` scaled by the horizontal and vertical grid steps,
// so these check the projection in units of those steps.

#[test]
fn to_world_origin() {
    let pos = MapPosition::new(0, 0);
    assert_eq!(pos.iso_units(), (0, 0));
}

#[test]
fn to_world_col_step() {
    // Moving one column right → right and down on screen.
    let pos = MapPosition::new(1, 0);
    assert_eq!(pos.iso_units(), (1, -1));
}

#[test]
fn to_world_row_step() {
    // Moving one row down → left and down on screen.
    let pos = MapPosition::new(0, 1);
    assert_eq!(pos.iso_units(), (-1, -1));
}

#[test]
fn to_world_diagonal_cancels_x() {
    // Equal col and row → the horizontal unit cancels to 0, the vertical doubles.
    let pos = MapPosition::new(3, 3);
    assert_eq!(pos.iso_units(), (0, -6));
}

#[test]
fn iso_units_of_extreme_positions() {
    let pos = MapPosition::new(i32::MAX, i32::MIN);
    assert_eq!(pos.iso_units(), (i32::MAX as i64 - i32::MIN as i64, -(i32::MAX as i64 + i32::MIN as i64)));
}

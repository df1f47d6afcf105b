use dungeon_core::fov::FOV;

fn open_grid(w: i32, h: i32) -> FOV {
    let mut f = FOV::new(w, h);
    for x in 0..w {
        for y in 0..h {
            f.set(x, y, true, true);
        }
    }
    f
}

#[test]
fn out_of_grid_cells_are_never_visible() {
    let mut f = open_grid(9, 9);
    f.compute_fov(4, 4, 0, true);
    assert!(!f.is_in_fov(-1, 0));
    assert!(!f.is_in_fov(0, -1));
    assert!(!f.is_in_fov(9, 4));
    assert!(!f.is_in_fov(4, 9));
    assert!(!f.is_in_fov(-100, -100));
    assert!(!f.is_in_fov(1000, 1000));
}

#[test]
fn open_grid_is_fully_visible_without_radius_limit() {
    let mut f = open_grid(9, 9);
    f.compute_fov(4, 4, 0, true);
    for x in 0..9 {
        for y in 0..9 {
            // The perimeter cells are ray endpoints (never entered by their
            // own ray), but interior cells are all lit on an open grid.
            if x > 0 && x < 8 && y > 0 && y < 8 {
                assert!(f.is_in_fov(x, y), "cell ({}, {}) should be lit", x, y);
            }
        }
    }
}

#[test]
fn wall_blocks_sight_beyond_it() {
    let mut f = open_grid(9, 9);
    // An opaque cell two steps to the right of the viewer.
    f.set(6, 4, false, false);
    f.compute_fov(4, 4, 0, false);
    assert!(f.is_in_fov(5, 4));
    // The cell straight behind the wall is dark.
    assert!(!f.is_in_fov(7, 4));
    // Without light_walls, the wall itself stays dark too.
    assert!(!f.is_in_fov(6, 4));
}

#[test]
fn light_walls_reveals_the_wall_face() {
    let mut f = open_grid(9, 9);
    f.set(6, 4, false, false);
    f.compute_fov(4, 4, 0, true);
    assert!(f.is_in_fov(6, 4));
    assert!(!f.is_in_fov(7, 4));
}

#[test]
fn radius_limits_visibility() {
    let mut f = open_grid(31, 31);
    f.compute_fov(15, 15, 3, true);
    assert!(f.is_in_fov(15, 15));
    assert!(f.is_in_fov(17, 15));
    // Far outside the torch radius.
    assert!(!f.is_in_fov(25, 15));
    assert!(!f.is_in_fov(15, 25));
}

#[test]
fn recompute_discards_previous_visibility() {
    let mut f = open_grid(21, 21);
    f.compute_fov(2, 2, 3, true);
    assert!(f.is_in_fov(2, 2));
    f.compute_fov(18, 18, 3, true);
    assert!(f.is_in_fov(18, 18));
    assert!(!f.is_in_fov(2, 2));
}

#[test]
fn set_clears_the_lit_flag() {
    let mut f = open_grid(5, 5);
    f.compute_fov(2, 2, 0, true);
    assert!(f.is_in_fov(2, 2));
    f.set(2, 2, true, true);
    assert!(!f.is_in_fov(2, 2));
}

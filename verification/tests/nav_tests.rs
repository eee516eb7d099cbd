use td_sandbox::geom::{Cell, GridConfig, GridPos};
use td_sandbox::nav::{build_nav_grid, next_agent_pos, validate_paths, NavKind, MOVE_COST};

fn config() -> GridConfig {
    GridConfig { width: 16, height: 16, pixel_scale: 1 }
}

#[test]
fn fresh_grid_is_all_passable() {
    let config = config();
    let grid = build_nav_grid(&config);
    for x in 0..16 {
        for y in 0..16 {
            assert!(!grid.is_blocked(GridPos::new(x, y, 0)));
        }
    }
    assert!(!grid.is_blocked(GridPos::new(16, 0, 0)));
}

#[test]
fn agent_moves_onto_free_cell() {
    let grid = build_nav_grid(&config());
    let p = next_agent_pos(&grid, GridPos::new(3, 3, 0), Some(Cell::new(4, 3)));
    assert_eq!(p, GridPos::new(4, 3, 0));
}

#[test]
fn agent_stays_off_impassable_cell() {
    let mut grid = build_nav_grid(&config());
    grid.set_nav(GridPos::new(4, 3, 0), NavKind::Impassable);
    grid.rebuild();
    let p = next_agent_pos(&grid, GridPos::new(3, 3, 0), Some(Cell::new(4, 3)));
    assert_eq!(p, GridPos::new(3, 3, 0));
}

#[test]
fn agent_off_grid_keeps_position() {
    let grid = build_nav_grid(&config());
    let p = next_agent_pos(&grid, GridPos::new(3, 3, 0), None);
    assert_eq!(p, GridPos::new(3, 3, 0));
}

#[test]
fn wall_blocks_paths() {
    let config = config();
    let mut grid = build_nav_grid(&config);
    for y in 0..16 {
        grid.set_nav(GridPos::new(4, y, 0), NavKind::Impassable);
    }
    grid.rebuild();
    assert!(!validate_paths(&grid, &config, config.center()));
}

#[test]
fn unbuilt_grid_fails_validation() {
    let config = config();
    let mut grid = build_nav_grid(&config);
    grid.set_nav(GridPos::new(1, 1, 0), NavKind::Impassable);
    assert!(!validate_paths(&grid, &config, config.center()));
}

#[test]
fn reopened_cell_is_passable_again() {
    let mut grid = build_nav_grid(&config());
    grid.set_nav(GridPos::new(2, 2, 0), NavKind::Impassable);
    grid.rebuild();
    assert!(grid.is_blocked(GridPos::new(2, 2, 0)));
    grid.set_nav(GridPos::new(2, 2, 0), NavKind::Passable(MOVE_COST));
    grid.rebuild();
    assert!(!grid.is_blocked(GridPos::new(2, 2, 0)));
}

#[test]
fn diagonal_gap_lets_paths_through() {
    // A wall with one diagonal gap: 8-way moves pass between two wall cells
    // that only touch at a corner.
    let config = config();
    let mut grid = build_nav_grid(&config);
    for y in 0..16 {
        let x = if y < 8 { 4 } else { 5 };
        grid.set_nav(GridPos::new(x, y, 0), NavKind::Impassable);
    }
    grid.rebuild();
    assert!(validate_paths(&grid, &config, config.center()));
}

use td_sandbox::geom::{distance_key, in_bounds, Cell, GridConfig, GridPos};
use td_sandbox::nav::CHUNK_SIZE;
use td_sandbox::states::{GameMode, GameState, PlayPhase};

fn small_config() -> GridConfig {
    GridConfig { width: 16, height: 16, pixel_scale: 1 }
}

#[test]
fn center_returns_midpoint() {
    let config = GridConfig { width: 40, height: 32, pixel_scale: 1 };
    assert_eq!(config.center(), GridPos::new(20, 16, 0));
}

#[test]
fn in_bounds_interior_cell() {
    let config = small_config();
    assert!(in_bounds(Cell::new(5, 5), &config));
}

#[test]
fn in_bounds_edge_cells() {
    let config = small_config();
    assert!(in_bounds(Cell::new(0, 0), &config));
    assert!(in_bounds(
        Cell::new(config.width as i32 - 1, config.height as i32 - 1),
        &config
    ));
}

#[test]
fn in_bounds_negative_returns_false() {
    let config = small_config();
    assert!(!in_bounds(Cell::new(-1, 0), &config));
    assert!(!in_bounds(Cell::new(0, -1), &config));
}

#[test]
fn in_bounds_beyond_dimensions_returns_false() {
    let config = small_config();
    assert!(!in_bounds(Cell::new(config.width as i32, 0), &config));
    assert!(!in_bounds(Cell::new(0, config.height as i32), &config));
}

#[test]
fn is_edge_marks_border_only() {
    let config = GridConfig { width: 5, height: 4, pixel_scale: 1 };
    assert!(config.is_edge(0, 2));
    assert!(config.is_edge(4, 1));
    assert!(config.is_edge(2, 0));
    assert!(config.is_edge(2, 3));
    assert!(!config.is_edge(2, 2));
    assert!(!config.is_edge(5, 0));
}

#[test]
fn tile_counts_round_down_to_chunks() {
    let config = GridConfig::from_tile_counts(42, 27, 2, CHUNK_SIZE);
    assert_eq!(config.width, 40);
    assert_eq!(config.height, 24);
    assert_eq!(config.pixel_scale, 2);
    assert_eq!(config.width % CHUNK_SIZE, 0);
    assert_eq!(config.height % CHUNK_SIZE, 0);
}

#[test]
fn tile_counts_already_aligned_stay() {
    let config = GridConfig::from_tile_counts(64, 32, 1, CHUNK_SIZE);
    assert_eq!((config.width, config.height), (64, 32));
}

#[test]
fn tile_counts_below_a_chunk_give_zero() {
    let config = GridConfig::from_tile_counts(7, 3, 1, CHUNK_SIZE);
    assert_eq!((config.width, config.height), (0, 0));
}

#[test]
fn distance_key_is_squared_distance() {
    assert_eq!(distance_key(GridPos::new(3, 4, 0), GridPos::new(0, 0, 0)), 25);
    assert_eq!(distance_key(GridPos::new(0, 0, 0), GridPos::new(3, 4, 0)), 25);
    assert_eq!(distance_key(GridPos::new(7, 7, 0), GridPos::new(7, 7, 0)), 0);
}

#[test]
fn state_defaults() {
    assert_eq!(GameState::default(), GameState::MainMenu);
    assert_eq!(GameMode::default(), GameMode::Classic);
    assert_eq!(PlayPhase::default(), PlayPhase::Building);
}

use rand::rngs::SmallRng;
use rand::{RngExt, SeedableRng};
use td_sandbox::cellset::CellSet;
use td_sandbox::geom::{in_bounds, Cell, GridConfig, GridPos};
use td_sandbox::nav::build_nav_grid;
use td_sandbox::pile::{EdgeCells, PileState};
use td_sandbox::placement::{build_terrain_map, TerrainCounts};
use td_sandbox::terrain::{
    build_exclusion_set, generate_clusters, grow_cluster, grow_step, pick_random_seed, AlwaysGrow,
    GrowthRoll, Terrain, PILE_BUFFER_RADIUS, TERRAIN_MAX_CLUSTER, TERRAIN_MIN_CLUSTER,
};
use td_sandbox::terrain_map::TerrainMap;

/// Growth chance falling from 0.85 toward 0.55 as the cluster fills up.
struct FallingChance;

impl GrowthRoll for FallingChance {
    fn keep_candidate(&mut self, rng: &mut SmallRng, cluster_len: usize, target_size: u32) -> bool {
        let growth_chance = 0.85 - (cluster_len as f32 / target_size as f32) * 0.3;
        rng.random::<f32>() <= growth_chance
    }
}

const NEIGHBORS_4: [(i32, i32); 4] = [(1, 0), (-1, 0), (0, 1), (0, -1)];

fn small_config() -> GridConfig {
    GridConfig { width: 16, height: 16, pixel_scale: 1 }
}

fn test_grid_config() -> GridConfig {
    GridConfig { width: 40, height: 32, pixel_scale: 1 }
}

fn test_pile(config: &GridConfig) -> PileState {
    PileState { cells: Vec::new(), center: config.center(), last_radius_int: 0 }
}

fn set_of(cells: &[Cell]) -> CellSet {
    let mut s = CellSet::new();
    for c in cells {
        s.insert(*c);
    }
    s
}

/// Cluster counts per kind for a map, from the coverage and weights.
fn terrain_counts(config: &GridConfig) -> TerrainCounts {
    let target_cells = (config.width * config.height) as f32 * 0.08;
    let avg_cluster = (TERRAIN_MIN_CLUSTER + TERRAIN_MAX_CLUSTER) / 2;
    TerrainCounts {
        rubble: (target_cells * 0.45) as u32 / avg_cluster,
        puddle: (target_cells * 0.30) as u32 / avg_cluster,
        radioactive: (target_cells * 0.25) as u32 / avg_cluster,
    }
}

// -- build_exclusion_set --

#[test]
fn exclusion_set_contains_pile_center() {
    let config = small_config();
    let pile = test_pile(&config);
    let excluded = build_exclusion_set(&config, &pile, &EdgeCells(Vec::new()));
    let center = Cell::new(pile.center.x as i32, pile.center.y as i32);
    assert!(excluded.contains(&center));
}

#[test]
fn exclusion_set_contains_pile_buffer() {
    let config = small_config();
    let pile = test_pile(&config);
    let excluded = build_exclusion_set(&config, &pile, &EdgeCells(Vec::new()));
    let cx = pile.center.x as i32;
    let cy = pile.center.y as i32;
    for dx in -PILE_BUFFER_RADIUS..=PILE_BUFFER_RADIUS {
        for dy in -PILE_BUFFER_RADIUS..=PILE_BUFFER_RADIUS {
            let cell = Cell::new(cx + dx, cy + dy);
            if in_bounds(cell, &config) {
                assert!(excluded.contains(&cell), "buffer cell ({}, {}) should be excluded", cell.x, cell.y);
            }
        }
    }
}

#[test]
fn exclusion_set_contains_edge_neighbors() {
    let config = small_config();
    let pile = test_pile(&config);
    let edge = GridPos::new(0, config.height / 2, 0);
    let excluded = build_exclusion_set(&config, &pile, &EdgeCells(vec![edge]));
    let ec = Cell::new(edge.x as i32, edge.y as i32);
    assert!(excluded.contains(&ec), "edge cell itself should be excluded");
    let inward = Cell::new(1, edge.y as i32);
    assert!(excluded.contains(&inward), "inward neighbor should be excluded");
}

#[test]
fn exclusion_set_all_cells_in_bounds() {
    let config = small_config();
    let pile = test_pile(&config);
    let excluded = build_exclusion_set(&config, &pile, &EdgeCells(Vec::new()));
    for cell in excluded.to_vec() {
        assert!(in_bounds(cell, &config), "excluded cell ({}, {}) out of bounds", cell.x, cell.y);
    }
}

#[test]
fn exclusion_set_is_exactly_buffer_and_edge_guard() {
    let config = small_config();
    let pile = test_pile(&config);
    let edge = GridPos::new(0, 0, 0);
    let excluded = build_exclusion_set(&config, &pile, &EdgeCells(vec![edge]));
    // 7 x 7 buffer around (8, 8), plus the corner and its two in-grid neighbours.
    assert_eq!(excluded.len(), 49 + 3);
    assert!(excluded.contains(&Cell::new(1, 0)));
    assert!(excluded.contains(&Cell::new(0, 1)));
    assert!(!excluded.contains(&Cell::new(1, 1)));
    assert!(!excluded.contains(&Cell::new(-1, 0)));
    assert!(!excluded.contains(&Cell::new(12, 8)));
    assert!(excluded.contains(&Cell::new(11, 11)));
}

// -- pick_random_seed --

#[test]
fn pick_random_seed_avoids_occupied() {
    let config = small_config();
    let occupied = set_of(&[Cell::new(5, 5)]);
    let mut rng = SmallRng::seed_from_u64(42);
    for _ in 0..50 {
        if let Some(cell) = pick_random_seed(&config, &occupied, &mut rng) {
            assert!(!occupied.contains(&cell));
        }
    }
}

#[test]
fn pick_random_seed_returns_none_when_full() {
    let config = small_config();
    let mut occupied = CellSet::new();
    for x in 0..config.width as i32 {
        for y in 0..config.height as i32 {
            occupied.insert(Cell::new(x, y));
        }
    }
    let mut rng = SmallRng::seed_from_u64(42);
    assert!(pick_random_seed(&config, &occupied, &mut rng).is_none());
}

#[test]
fn pick_random_seed_finds_the_only_free_cell_region() {
    let config = GridConfig { width: 3, height: 3, pixel_scale: 1 };
    let mut occupied = CellSet::new();
    for x in 0..3 {
        for y in 0..3 {
            if (x, y) != (1, 2) {
                occupied.insert(Cell::new(x, y));
            }
        }
    }
    let mut rng = SmallRng::seed_from_u64(3);
    let seed = pick_random_seed(&config, &occupied, &mut rng);
    // With 100 draws over 9 cells the free one is found for this seed.
    assert_eq!(seed, Some(Cell::new(1, 2)));
}

// -- grow_cluster --

#[test]
fn grow_cluster_contains_seed() {
    let config = small_config();
    let seed = Cell::new(8, 8);
    let mut rng = SmallRng::seed_from_u64(42);
    let cluster = grow_cluster(seed, 10, &CellSet::new(), &config, &mut rng, &mut FallingChance);
    assert!(cluster.contains(&seed));
}

#[test]
fn grow_cluster_respects_max_size() {
    let config = small_config();
    let mut rng = SmallRng::seed_from_u64(42);
    let target = 8;
    let cluster = grow_cluster(Cell::new(8, 8), target, &CellSet::new(), &config, &mut rng, &mut FallingChance);
    assert!(cluster.len() as u32 <= target, "cluster size {} exceeds target {}", cluster.len(), target);
}

#[test]
fn grow_cluster_avoids_occupied() {
    let config = small_config();
    let occupied = set_of(&[Cell::new(9, 8), Cell::new(8, 9)]);
    let mut rng = SmallRng::seed_from_u64(42);
    let cluster = grow_cluster(Cell::new(8, 8), 10, &occupied, &config, &mut rng, &mut FallingChance);
    for cell in &cluster {
        assert!(!occupied.contains(cell), "cluster contains occupied cell {:?}", cell);
    }
}

#[test]
fn grow_cluster_all_in_bounds() {
    let config = small_config();
    let mut rng = SmallRng::seed_from_u64(42);
    let cluster = grow_cluster(Cell::new(0, 0), 15, &CellSet::new(), &config, &mut rng, &mut FallingChance);
    for cell in &cluster {
        assert!(in_bounds(*cell, &config), "cluster cell ({}, {}) out of bounds", cell.x, cell.y);
    }
}

#[test]
fn grow_cluster_cells_contiguous() {
    let config = small_config();
    let seed = Cell::new(8, 8);
    let mut rng = SmallRng::seed_from_u64(42);
    let cluster = grow_cluster(seed, 15, &CellSet::new(), &config, &mut rng, &mut FallingChance);
    for &cell in &cluster {
        if cell == seed {
            continue;
        }
        let has_neighbor = NEIGHBORS_4
            .iter()
            .any(|(dx, dy)| cluster.contains(&Cell::new(cell.x + dx, cell.y + dy)));
        assert!(has_neighbor, "cluster cell ({}, {}) has no neighbor in cluster", cell.x, cell.y);
    }
}

#[test]
fn grow_cluster_always_grow_fills_target() {
    let config = small_config();
    let mut rng = SmallRng::seed_from_u64(5);
    let cluster = grow_cluster(Cell::new(8, 8), 12, &CellSet::new(), &config, &mut rng, &mut AlwaysGrow);
    assert_eq!(cluster.len(), 12);
    assert_eq!(cluster[0], Cell::new(8, 8));
}

#[test]
fn grow_cluster_walled_in_seed_stays_alone() {
    let config = small_config();
    let occupied = set_of(&[Cell::new(3, 4), Cell::new(5, 4), Cell::new(4, 3), Cell::new(4, 5)]);
    let mut rng = SmallRng::seed_from_u64(9);
    let cluster = grow_cluster(Cell::new(4, 4), 10, &occupied, &config, &mut rng, &mut AlwaysGrow);
    assert_eq!(cluster, vec![Cell::new(4, 4)]);
}

#[test]
fn grow_cluster_zero_target_keeps_seed() {
    let config = small_config();
    let mut rng = SmallRng::seed_from_u64(9);
    let cluster = grow_cluster(Cell::new(4, 4), 0, &CellSet::new(), &config, &mut rng, &mut AlwaysGrow);
    assert_eq!(cluster, vec![Cell::new(4, 4)]);
}

#[test]
fn grow_cluster_has_no_repeats() {
    let config = small_config();
    let mut rng = SmallRng::seed_from_u64(11);
    let cluster = grow_cluster(Cell::new(2, 2), 25, &CellSet::new(), &config, &mut rng, &mut FallingChance);
    for i in 0..cluster.len() {
        for j in (i + 1)..cluster.len() {
            assert_ne!(cluster[i], cluster[j]);
        }
    }
}

// -- generate_clusters --

#[test]
fn generate_clusters_marks_occupied() {
    let config = small_config();
    let mut occupied = CellSet::new();
    let mut rng = SmallRng::seed_from_u64(42);
    let clusters = generate_clusters(3, &mut occupied, &config, &mut rng, &mut FallingChance, TERRAIN_MIN_CLUSTER, TERRAIN_MAX_CLUSTER);
    for cluster in &clusters {
        for cell in cluster {
            assert!(occupied.contains(cell));
        }
    }
}

#[test]
fn generate_clusters_respects_count() {
    let config = small_config();
    let mut occupied = CellSet::new();
    let mut rng = SmallRng::seed_from_u64(42);
    let clusters = generate_clusters(5, &mut occupied, &config, &mut rng, &mut FallingChance, TERRAIN_MIN_CLUSTER, TERRAIN_MAX_CLUSTER);
    assert!(clusters.len() <= 5);
}

#[test]
fn generate_clusters_non_overlapping() {
    let config = small_config();
    let mut occupied = CellSet::new();
    let mut rng = SmallRng::seed_from_u64(42);
    let clusters = generate_clusters(3, &mut occupied, &config, &mut rng, &mut FallingChance, TERRAIN_MIN_CLUSTER, TERRAIN_MAX_CLUSTER);
    let mut seen = CellSet::new();
    for cluster in &clusters {
        for &cell in cluster {
            assert!(seen.insert(cell), "cell ({}, {}) appears in multiple clusters", cell.x, cell.y);
        }
    }
}

#[test]
fn generate_clusters_occupied_is_before_plus_clusters() {
    let config = small_config();
    let mut occupied = set_of(&[Cell::new(0, 0), Cell::new(15, 15)]);
    let mut rng = SmallRng::seed_from_u64(17);
    let clusters = generate_clusters(4, &mut occupied, &config, &mut rng, &mut AlwaysGrow, 3, 6);
    let placed: usize = clusters.iter().map(|c| c.len()).sum();
    assert_eq!(occupied.len(), 2 + placed);
    for cluster in &clusters {
        assert!(!cluster.is_empty() && cluster.len() <= 6);
        assert!(!cluster.contains(&Cell::new(0, 0)));
        assert!(!cluster.contains(&Cell::new(15, 15)));
    }
}

#[test]
fn generate_clusters_none_on_full_grid() {
    let config = GridConfig { width: 2, height: 2, pixel_scale: 1 };
    let mut occupied = set_of(&[Cell::new(0, 0), Cell::new(0, 1), Cell::new(1, 0), Cell::new(1, 1)]);
    let mut rng = SmallRng::seed_from_u64(1);
    let clusters = generate_clusters(3, &mut occupied, &config, &mut rng, &mut AlwaysGrow, 1, 4);
    assert!(clusters.is_empty());
    assert_eq!(occupied.len(), 4);
}

// -- terrain map lookups --

#[test]
fn terrain_at_returns_correct_type() {
    let mut terrain_map = TerrainMap::default();
    terrain_map.insert(Cell::new(5, 5), Terrain::Puddle);
    assert_eq!(terrain_map.get(&Cell::new(5, 5)), Some(Terrain::Puddle));
}

#[test]
fn terrain_at_returns_none_for_empty_cell() {
    let terrain_map = TerrainMap::default();
    assert_eq!(terrain_map.get(&Cell::new(5, 5)), None);
}

#[test]
fn terrain_map_insert_replaces_kind() {
    let mut map = TerrainMap::new();
    map.insert(Cell::new(1, 2), Terrain::Rubble);
    map.insert(Cell::new(3, 4), Terrain::Puddle);
    map.insert(Cell::new(1, 2), Terrain::Radioactive);
    assert_eq!(map.len(), 2);
    assert_eq!(map.get(&Cell::new(1, 2)), Some(Terrain::Radioactive));
    assert_eq!(map.get(&Cell::new(3, 4)), Some(Terrain::Puddle));
    assert_eq!(map.get(&Cell::new(2, 1)), None);
    let entries = map.entries();
    assert_eq!(entries.len(), 2);
    assert!(entries.contains(&(Cell::new(1, 2), Terrain::Radioactive)));
}

// -- build_terrain_map --

#[test]
fn build_terrain_map_no_terrain_in_exclusion_set() {
    let config = small_config();
    let pile = test_pile(&config);
    let edge_cells = EdgeCells(Vec::new());
    let excluded = build_exclusion_set(&config, &pile, &edge_cells);
    let mut grid = build_nav_grid(&config);
    let mut rng = SmallRng::seed_from_u64(42);
    let terrain_map = build_terrain_map(&config, &pile, &edge_cells, &mut grid, &mut rng, &mut FallingChance, terrain_counts(&config));
    for (cell, _) in terrain_map.entries() {
        assert!(!excluded.contains(&cell), "terrain at ({}, {}) is in the exclusion set", cell.x, cell.y);
    }
}

#[test]
fn build_terrain_map_deterministic() {
    let config = small_config();
    let pile = test_pile(&config);
    let edge_cells = EdgeCells(Vec::new());

    let mut grid1 = build_nav_grid(&config);
    let mut rng1 = SmallRng::seed_from_u64(123);
    let map1 = build_terrain_map(&config, &pile, &edge_cells, &mut grid1, &mut rng1, &mut FallingChance, terrain_counts(&config));

    let mut grid2 = build_nav_grid(&config);
    let mut rng2 = SmallRng::seed_from_u64(123);
    let map2 = build_terrain_map(&config, &pile, &edge_cells, &mut grid2, &mut rng2, &mut FallingChance, terrain_counts(&config));

    assert_eq!(map1.entries(), map2.entries(), "same seed should produce identical terrain");
}

#[test]
fn build_terrain_map_contains_all_types() {
    let config = test_grid_config();
    let pile = test_pile(&config);
    let edge_cells = EdgeCells(Vec::new());
    let mut grid = build_nav_grid(&config);
    let mut rng = SmallRng::seed_from_u64(42);
    let terrain_map = build_terrain_map(&config, &pile, &edge_cells, &mut grid, &mut rng, &mut FallingChance, terrain_counts(&config));
    let entries = terrain_map.entries();
    let has_rubble = entries.iter().any(|(_, t)| *t == Terrain::Rubble);
    let has_puddle = entries.iter().any(|(_, t)| *t == Terrain::Puddle);
    let has_radio = entries.iter().any(|(_, t)| *t == Terrain::Radioactive);
    assert!(has_rubble, "should generate rubble");
    assert!(has_puddle, "should generate puddles");
    assert!(has_radio, "should generate radioactive");
}

#[test]
fn build_terrain_map_rubble_is_impassable() {
    let config = small_config();
    let pile = test_pile(&config);
    let edge_cells = EdgeCells(Vec::new());
    let mut grid = build_nav_grid(&config);
    let mut rng = SmallRng::seed_from_u64(42);
    let terrain_map = build_terrain_map(&config, &pile, &edge_cells, &mut grid, &mut rng, &mut FallingChance, terrain_counts(&config));
    for (cell, terrain) in terrain_map.entries() {
        let pos = GridPos::new(cell.x as u32, cell.y as u32, 0);
        if terrain == Terrain::Rubble {
            assert!(grid.is_blocked(pos), "rubble at ({}, {}) should be impassable", cell.x, cell.y);
        } else {
            assert!(!grid.is_blocked(pos), "non-rubble at ({}, {}) should be passable", cell.x, cell.y);
        }
    }
}

#[test]
fn build_terrain_map_on_large_map_blocks_exactly_rubble() {
    let config = test_grid_config();
    let pile = test_pile(&config);
    let edge_cells = EdgeCells(Vec::new());
    let mut grid = build_nav_grid(&config);
    let mut rng = SmallRng::seed_from_u64(7);
    let counts = TerrainCounts { rubble: 6, puddle: 4, radioactive: 3 };
    let terrain_map = build_terrain_map(&config, &pile, &edge_cells, &mut grid, &mut rng, &mut FallingChance, counts);
    let mut rubble = 0;
    for x in 0..config.width {
        for y in 0..config.height {
            let cell = Cell::new(x as i32, y as i32);
            let is_rubble = terrain_map.get(&cell) == Some(Terrain::Rubble);
            assert_eq!(grid.is_blocked(GridPos::new(x, y, 0)), is_rubble);
            if is_rubble {
                rubble += 1;
            }
        }
    }
    assert!(rubble > 0);
}

#[test]
fn generate_clusters_draws_varied_sizes() {
    let config = GridConfig { width: 40, height: 32, pixel_scale: 1 };
    let mut occupied = CellSet::new();
    let mut rng = SmallRng::seed_from_u64(8);
    let clusters = generate_clusters(8, &mut occupied, &config, &mut rng, &mut AlwaysGrow, 1, 25);
    assert_eq!(clusters.len(), 8);
    assert!(clusters.iter().any(|c| c.len() > 1), "target sizes above the minimum should be drawn");
    assert!(clusters.iter().all(|c| c.len() <= 25));
}

#[test]
fn pick_random_seed_succeeds_on_free_grid() {
    let config = small_config();
    let mut rng = SmallRng::seed_from_u64(123);
    let seed = pick_random_seed(&config, &CellSet::new(), &mut rng).expect("a free grid always yields a seed");
    assert!(in_bounds(seed, &config));
}

#[test]
fn generate_clusters_on_free_grid_places_one() {
    let config = small_config();
    let mut occupied = CellSet::new();
    let mut rng = SmallRng::seed_from_u64(5);
    let clusters = generate_clusters(1, &mut occupied, &config, &mut rng, &mut AlwaysGrow, 2, 4);
    assert_eq!(clusters.len(), 1);
}

// -- grow_step --

#[test]
fn grow_step_joins_free_candidate_and_opens_neighbours() {
    let config = small_config();
    let mut cluster = vec![Cell::new(4, 4)];
    let mut in_cluster = set_of(&[Cell::new(4, 4)]);
    let mut frontier = vec![Cell::new(5, 4), Cell::new(3, 4), Cell::new(4, 5)];
    let occupied = set_of(&[Cell::new(5, 5)]);
    let joined = grow_step(&mut cluster, &mut in_cluster, &mut frontier, 0, true, &occupied, &config);
    assert!(joined);
    assert_eq!(cluster, vec![Cell::new(4, 4), Cell::new(5, 4)]);
    assert!(in_cluster.contains(&Cell::new(5, 4)));
    // (5, 4) swapped with the last cell, then its open neighbours right, up
    // ((5, 5) is occupied, (4, 4) already in the cluster) and down.
    assert_eq!(
        frontier,
        vec![Cell::new(4, 5), Cell::new(3, 4), Cell::new(6, 4), Cell::new(5, 3)]
    );
}

#[test]
fn grow_step_rejected_candidate_only_leaves_frontier() {
    let config = small_config();
    let mut cluster = vec![Cell::new(4, 4)];
    let mut in_cluster = set_of(&[Cell::new(4, 4)]);
    let mut frontier = vec![Cell::new(5, 4), Cell::new(3, 4), Cell::new(4, 5)];
    let joined = grow_step(&mut cluster, &mut in_cluster, &mut frontier, 1, false, &CellSet::new(), &config);
    assert!(!joined);
    assert_eq!(cluster, vec![Cell::new(4, 4)]);
    assert_eq!(frontier, vec![Cell::new(5, 4), Cell::new(4, 5)]);
}

#[test]
fn grow_step_skips_cell_already_in_cluster() {
    let config = small_config();
    let mut cluster = vec![Cell::new(4, 4), Cell::new(5, 4)];
    let mut in_cluster = set_of(&[Cell::new(4, 4), Cell::new(5, 4)]);
    let mut frontier = vec![Cell::new(5, 4)];
    let joined = grow_step(&mut cluster, &mut in_cluster, &mut frontier, 0, true, &CellSet::new(), &config);
    assert!(!joined);
    assert_eq!(cluster.len(), 2);
    assert!(frontier.is_empty());
}
